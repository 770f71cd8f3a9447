//! A statement that is written out is read again as the same statement.

use vstd::prelude::*;
use crate::lang::errors::ErrorView;
use crate::lang::grammar::{at_end, binary_levels, check, done, ForClauses, Parsed};
use crate::lang::lexer::{LiteralView, TokenType, TokenView};
use crate::lang::parser::{ExpressionView, StatementView};
use crate::lang::laws::expressions::{
    lemma_well_scanned_at,
    starts_expression,
    stops,
    stops_expression,
    well_scanned,
    went_well,
};
use crate::lang::laws::progress::{
    lemma_block_items_moves,
    lemma_block_moves,
    lemma_clauses_moves,
    lemma_declaration_moves,
    lemma_expression_moves,
    lemma_initializer_moves,
    lemma_optional_moves,
    lemma_parameter_list_moves,
    lemma_parameters_moves,
    lemma_statement_moves,
};
use crate::lang::laws::reading::{
    binary_at,
    expression_at,
    lemma_assignment_step,
    lemma_binary_rest_step,
    lemma_binary_step,
    lemma_call_rest_step,
    lemma_call_step,
    lemma_expression_back,
    lemma_expression_step,
    lemma_operand_step,
    lemma_unary_step,
    negates,
    primary_at,
    unary_at,
};
use crate::lang::laws::steps::{
    block_at,
    block_ends,
    block_items_at,
    clauses_at,
    declaration_at,
    expression_statement_at,
    for_at,
    function_declaration_at,
    if_at,
    initializer_at,
    lemma_block_items_step,
    lemma_block_step,
    lemma_clauses_step,
    lemma_declaration_step,
    lemma_expression_statement_step,
    lemma_for_step,
    lemma_function_declaration_step,
    lemma_if_step,
    lemma_initializer_step,
    lemma_jump_step,
    lemma_optional_step,
    lemma_parameter_list_step,
    lemma_parameters_step,
    lemma_print_step,
    lemma_program_step,
    lemma_return_step,
    lemma_statement_step,
    lemma_variable_declaration_step,
    lemma_while_step,
    optional_at,
    parameter_list_at,
    parameters_at,
    program_at,
    statement_at,
    variable_declaration_at,
    while_at,
};
use crate::lang::rendering::{
    expression_tokens,
    fixed_token,
    parameter_tokens,
    placeless,
    placeless_expression,
    placeless_statement,
    placeless_statements,
    placeless_tokens,
    statement_tokens,
    statements_tokens,
};
use crate::lang::laws::statements::{
    lemma_block_items_sound,
    lemma_block_sound,
    lemma_clauses_sound,
    lemma_declaration_sound,
    lemma_expression_sound,
    lemma_expression_statement_sound,
    lemma_for_is_written,
    lemma_for_sound,
    lemma_if_sound,
    lemma_parameter_list_sound,
    lemma_parameters_are_written,
    lemma_program_sound,
    lemma_statement_is_written,
    lemma_statement_sound,
    lemma_statements_are_written,
    lemma_variable_declaration_sound,
    lemma_while_sound,
    lemma_written_at,
    lemma_written_row,
    lemma_written_segment,
    open_ended,
    repeated,
    semicolon,
    stepped_body,
    written,
};

verus! {

// ---------------------------------------------------------------------------
// Statements that differ in places only
// ---------------------------------------------------------------------------

/// Whether `r2` is `r` read again: it found a statement that differs from
/// that of `r` in places only, ended at `end`, and recorded nothing.
pub open spec fn reads_statement(
    r: Parsed<StatementView>,
    r2: Parsed<StatementView>,
    end: int,
    errs2: Seq<ErrorView>,
) -> bool {
    &&& r2.value is Some
    &&& r2.pos == end
    &&& r2.errors == errs2
    &&& placeless_statement(r2.value->0) == placeless_statement(r.value->0)
}

/// Two statements that hold expressions differ in places only if the
/// expressions and the tokens do.
pub proof fn lemma_placeless_simple(
    e: ExpressionView,
    t: TokenView,
    e2: ExpressionView,
    t2: TokenView,
)
    requires
        placeless_expression(e2) == placeless_expression(e),
        placeless(t2) == placeless(t),
    ensures
        placeless_statement(StatementView::Expression(e2)) == placeless_statement(
            StatementView::Expression(e),
        ),
        placeless_statement(StatementView::Print(e2)) == placeless_statement(
            StatementView::Print(e),
        ),
        placeless_statement(StatementView::Variable { name: t2, initializer: Some(e2) })
            == placeless_statement(StatementView::Variable { name: t, initializer: Some(e) }),
        placeless_statement(StatementView::Variable { name: t2, initializer: None })
            == placeless_statement(StatementView::Variable { name: t, initializer: None }),
        placeless_statement(StatementView::Return { keyword: t2, value: Some(e2) })
            == placeless_statement(StatementView::Return { keyword: t, value: Some(e) }),
        placeless_statement(StatementView::Return { keyword: t2, value: None })
            == placeless_statement(StatementView::Return { keyword: t, value: None }),
        placeless_statement(StatementView::Break { keyword: t2 }) == placeless_statement(
            StatementView::Break { keyword: t },
        ),
        placeless_statement(StatementView::Continue { keyword: t2 }) == placeless_statement(
            StatementView::Continue { keyword: t },
        ),
{
    reveal_with_fuel(placeless_statement, 1);
}

/// Two statements that hold statements differ in places only if their
/// parts do.
pub proof fn lemma_placeless_compound(
    c: ExpressionView,
    a: StatementView,
    b: StatementView,
    c2: ExpressionView,
    a2: StatementView,
    b2: StatementView,
)
    requires
        placeless_expression(c2) == placeless_expression(c),
        placeless_statement(a2) == placeless_statement(a),
        placeless_statement(b2) == placeless_statement(b),
    ensures
        placeless_statement(
            StatementView::If {
                condition: c2,
                then_branch: Box::new(a2),
                else_branch: Some(Box::new(b2)),
            },
        ) == placeless_statement(
            StatementView::If {
                condition: c,
                then_branch: Box::new(a),
                else_branch: Some(Box::new(b)),
            },
        ),
        placeless_statement(
            StatementView::If { condition: c2, then_branch: Box::new(a2), else_branch: None },
        ) == placeless_statement(
            StatementView::If { condition: c, then_branch: Box::new(a), else_branch: None },
        ),
        placeless_statement(StatementView::While { condition: c2, body: Box::new(a2) })
            == placeless_statement(StatementView::While { condition: c, body: Box::new(a) }),
{
    reveal_with_fuel(placeless_statement, 1);
}

/// Two blocks differ in places only if their statements do.
pub proof fn lemma_placeless_block(list: Seq<StatementView>, list2: Seq<StatementView>)
    requires
        placeless_statements(list2) == placeless_statements(list),
    ensures
        placeless_statement(StatementView::Block(list2)) == placeless_statement(
            StatementView::Block(list),
        ),
{
    reveal_with_fuel(placeless_statement, 1);
    reveal(placeless_statements);
    let a = placeless_statement(StatementView::Block(list));
    let b = placeless_statement(StatementView::Block(list2));
    assert(a->Block_0 =~= placeless_statements(list));
    assert(b->Block_0 =~= placeless_statements(list2));
}

/// Two functions differ in places only if their names, parameters and
/// bodies do.
pub proof fn lemma_placeless_function(
    name: TokenView,
    parameters: Seq<TokenView>,
    body: StatementView,
    name2: TokenView,
    parameters2: Seq<TokenView>,
    body2: StatementView,
)
    requires
        placeless(name2) == placeless(name),
        placeless_tokens(parameters2) == placeless_tokens(parameters),
        placeless_statement(body2) == placeless_statement(body),
    ensures
        placeless_statement(
            StatementView::Function {
                name: name2,
                parameters: parameters2,
                body: Box::new(body2),
            },
        ) == placeless_statement(
            StatementView::Function { name, parameters, body: Box::new(body) },
        ),
{
    reveal_with_fuel(placeless_statement, 1);
}

/// Two lists of statements that differ in places only are equally long,
/// and still differ so with one more statement each.
pub proof fn lemma_placeless_statements_push(
    list: Seq<StatementView>,
    a: StatementView,
    list2: Seq<StatementView>,
    a2: StatementView,
)
    requires
        placeless_statements(list2) == placeless_statements(list),
        placeless_statement(a2) == placeless_statement(a),
    ensures
        list2.len() == list.len(),
        placeless_statements(list2.push(a2)) == placeless_statements(list.push(a)),
{
    reveal(placeless_statements);
    let s1 = placeless_statements(list);
    let s2 = placeless_statements(list2);
    assert(s1.len() == list.len());
    assert(s2.len() == list2.len());
    assert forall|k: int| 0 <= k < list.len() implies placeless_statement(list2[k])
        == placeless_statement(list[k]) by {
        assert(s2[k] == placeless_statement(list2[k]));
        assert(s1[k] == placeless_statement(list[k]));
    }
    let t1 = placeless_statements(list.push(a));
    let t2 = placeless_statements(list2.push(a2));
    assert(t1.len() == t2.len());
    assert forall|k: int| 0 <= k < t1.len() implies t1[k] == t2[k] by {
        if k < list.len() {
            assert(list.push(a)[k] == list[k]);
            assert(list2.push(a2)[k] == list2[k]);
        }
    }
    assert(t2 =~= t1);
}

/// Two lists of tokens that differ in places only are equally long, and
/// still differ so with one more token each.
pub proof fn lemma_placeless_tokens_push(
    list: Seq<TokenView>,
    a: TokenView,
    list2: Seq<TokenView>,
    a2: TokenView,
)
    requires
        placeless_tokens(list2) == placeless_tokens(list),
        placeless(a2) == placeless(a),
    ensures
        list2.len() == list.len(),
        placeless_tokens(list2.push(a2)) == placeless_tokens(list.push(a)),
{
    let s1 = placeless_tokens(list);
    let s2 = placeless_tokens(list2);
    assert(s1.len() == list.len());
    assert(s2.len() == list2.len());
    assert forall|k: int| 0 <= k < list.len() implies placeless(list2[k]) == placeless(
        list[k],
    ) by {
        assert(s2[k] == placeless(list2[k]));
        assert(s1[k] == placeless(list[k]));
    }
    assert(placeless_tokens(list2.push(a2)) =~= placeless_tokens(list.push(a)));
}

// ---------------------------------------------------------------------------
// Expressions in statements
// ---------------------------------------------------------------------------

/// An expression that parses is read again where its tokens stand written
/// before a token that ends an expression.
pub proof fn lemma_expression_written(
    ts: Seq<TokenView>,
    pos: int,
    errs: Seq<ErrorView>,
    ts2: Seq<TokenView>,
    q: int,
    errs2: Seq<ErrorView>,
)
    requires
        well_scanned(ts),
        0 <= pos < ts.len(),
        went_well(expression_at(ts, pos, errs)),
        written(ts2, q, expression_tokens(expression_at(ts, pos, errs).value->0)),
        stops_expression(
            ts2[q + expression_tokens(expression_at(ts, pos, errs).value->0).len()].token_type,
        ),
    ensures
        expression_at(ts2, q, errs2).value is Some,
        expression_at(ts2, q, errs2).pos == q + expression_tokens(
            expression_at(ts, pos, errs).value->0,
        ).len(),
        expression_at(ts2, q, errs2).errors == errs2,
        placeless_expression(expression_at(ts2, q, errs2).value->0) == placeless_expression(
            expression_at(ts, pos, errs).value->0,
        ),
        ts2[q].token_type == ts[pos].token_type,
{
    let r = expression_at(ts, pos, errs);
    lemma_expression_sound(ts, pos, errs);
    lemma_written_segment(ts, pos, r.pos, ts2, q);
    lemma_expression_back(ts, pos, errs, ts2, q, errs2);
    lemma_written_at(ts2, q, expression_tokens(r.value->0), 0);
}

/// An expression statement that parses is read again where its tokens
/// stand written.
pub proof fn lemma_expression_statement_back(
    ts: Seq<TokenView>,
    pos: int,
    errs: Seq<ErrorView>,
    ts2: Seq<TokenView>,
    q: int,
    errs2: Seq<ErrorView>,
)
    requires
        well_scanned(ts),
        0 <= pos < ts.len(),
        went_well(expression_statement_at(ts, pos, errs)),
        written(ts2, q, statement_tokens(expression_statement_at(ts, pos, errs).value->0)),
    ensures
        reads_statement(
            expression_statement_at(ts, pos, errs),
            expression_statement_at(ts2, q, errs2),
            q + statement_tokens(expression_statement_at(ts, pos, errs).value->0).len(),
            errs2,
        ),
        starts_expression(ts2[q].token_type),
{
    let r = expression_statement_at(ts, pos, errs);
    lemma_well_scanned_at(ts, pos);
    lemma_expression_statement_step(ts, pos, errs);
    lemma_expression_statement_step(ts2, q, errs2);
    lemma_expression_moves(ts, pos, errs);
    let e = expression_at(ts, pos, errs);
    let tokens = expression_tokens(e.value->0);
    lemma_statement_is_written(r.value->0);
    lemma_written_row(ts2, q, tokens, semicolon());
    lemma_written_at(ts2, q + tokens.len(), semicolon(), 0);
    lemma_expression_written(ts, pos, errs, ts2, q, errs2);
    lemma_expression_sound(ts, pos, errs);
    let e2 = expression_at(ts2, q, errs2);
    lemma_placeless_simple(e.value->0, ts[pos], e2.value->0, ts[pos]);
}

/// A variable declaration that parses is read again, behind a `let`, where
/// its tokens stand written.
pub proof fn lemma_variable_declaration_back(
    ts: Seq<TokenView>,
    pos: int,
    errs: Seq<ErrorView>,
    ts2: Seq<TokenView>,
    q: int,
    errs2: Seq<ErrorView>,
)
    requires
        well_scanned(ts),
        0 <= pos < ts.len(),
        went_well(variable_declaration_at(ts, pos, errs)),
        written(ts2, q - 1, statement_tokens(variable_declaration_at(ts, pos, errs).value->0)),
    ensures
        reads_statement(
            variable_declaration_at(ts, pos, errs),
            variable_declaration_at(ts2, q, errs2),
            q - 1 + statement_tokens(variable_declaration_at(ts, pos, errs).value->0).len(),
            errs2,
        ),
        check(ts2, q - 1, TokenType::Variable),
{
    let r = variable_declaration_at(ts, pos, errs);
    lemma_variable_declaration_step(ts, pos, errs);
    lemma_variable_declaration_step(ts2, q, errs2);
    lemma_well_scanned_at(ts, pos);
    lemma_well_scanned_at(ts, pos + 1);
    lemma_statement_is_written(r.value->0);
    let head = seq![fixed_token(TokenType::Variable), placeless(ts[pos])];
    if check(ts, pos + 1, TokenType::Equal) {
        let e = expression_at(ts, pos + 2, errs);
        lemma_expression_moves(ts, pos + 2, errs);
        let tokens = expression_tokens(e.value->0);
        let value = seq![fixed_token(TokenType::Equal)] + tokens;
        lemma_written_row(ts2, q - 1, head + value, semicolon());
        lemma_written_row(ts2, q - 1, head, value);
        lemma_written_row(ts2, q + 1, seq![fixed_token(TokenType::Equal)], tokens);
        lemma_written_at(ts2, q - 1, head, 0);
        lemma_written_at(ts2, q - 1, head, 1);
        lemma_written_at(ts2, q + 1, seq![fixed_token(TokenType::Equal)], 0);
        lemma_written_at(ts2, q + 2 + tokens.len(), semicolon(), 0);
        lemma_expression_written(ts, pos + 2, errs, ts2, q + 2, errs2);
        let e2 = expression_at(ts2, q + 2, errs2);
        lemma_placeless_simple(e.value->0, ts[pos], e2.value->0, ts2[q]);
    } else {
        lemma_written_row(ts2, q - 1, head, semicolon());
        lemma_written_at(ts2, q - 1, head, 0);
        lemma_written_at(ts2, q - 1, head, 1);
        lemma_written_at(ts2, q + 1, semicolon(), 0);
        let e = ExpressionView::Variable(ts[pos]);
        lemma_placeless_simple(e, ts[pos], e, ts2[q]);
    }
}


// ---------------------------------------------------------------------------
// Parameters
// ---------------------------------------------------------------------------

/// Whether the list `r2` is the list `r` read again.
pub open spec fn reads_tokens(
    r: Parsed<Seq<TokenView>>,
    r2: Parsed<Seq<TokenView>>,
    end: int,
    errs2: Seq<ErrorView>,
) -> bool {
    &&& r2.value is Some
    &&& r2.pos == end
    &&& r2.errors == errs2
    &&& placeless_tokens(r2.value->0) == placeless_tokens(r.value->0)
}

/// A list of parameters that parses is read again where its tokens stand
/// written before a `)`.
pub proof fn lemma_parameter_list_back(
    ts: Seq<TokenView>,
    list: Seq<TokenView>,
    pos: int,
    errs: Seq<ErrorView>,
    ts2: Seq<TokenView>,
    list2: Seq<TokenView>,
    q: int,
    errs2: Seq<ErrorView>,
)
    requires
        well_scanned(ts),
        0 <= pos < ts.len(),
        went_well(parameter_list_at(ts, list, pos, errs)),
        written(
            ts2,
            q,
            parameter_tokens(parameter_list_at(ts, list, pos, errs).value->0, list.len() as int),
        ),
        ts2[q + parameter_tokens(
            parameter_list_at(ts, list, pos, errs).value->0,
            list.len() as int,
        ).len()].token_type == TokenType::RightParen,
        placeless_tokens(list2) == placeless_tokens(list),
    ensures
        reads_tokens(
            parameter_list_at(ts, list, pos, errs),
            parameter_list_at(ts2, list2, q, errs2),
            q + parameter_tokens(
                parameter_list_at(ts, list, pos, errs).value->0,
                list.len() as int,
            ).len(),
            errs2,
        ),
        check(ts2, q, TokenType::Identifier),
    decreases ts.len() - pos,
{
    let r = parameter_list_at(ts, list, pos, errs);
    let full = r.value->0;
    let n = list.len() as int;
    lemma_well_scanned_at(ts, pos);
    lemma_parameter_list_sound(ts, list, pos, errs);
    lemma_parameter_list_step(ts, list, pos, errs);
    lemma_placeless_tokens_push(list, ts[pos], list2, ts[pos]);
    lemma_parameter_list_step(ts2, list2, q, errs2);
    lemma_parameters_are_written(full, n);
    let tokens = parameter_tokens(full, n);
    if check(ts, pos + 1, TokenType::Comma) {
        lemma_well_scanned_at(ts, pos + 1);
        lemma_parameter_list_sound(ts, list.push(ts[pos]), pos + 2, errs);
        assert(full[n] == ts[pos]) by {
            assert(full.subrange(0, n + 1) == list.push(ts[pos]));
            assert(full.subrange(0, n + 1)[n] == full[n]);
        }
        let head = seq![placeless(full[n]), fixed_token(TokenType::Comma)];
        lemma_written_row(ts2, q, head, parameter_tokens(full, n + 1));
        lemma_written_at(ts2, q, head, 0);
        lemma_written_at(ts2, q, head, 1);
        lemma_placeless_tokens_push(list, ts[pos], list2, ts2[q]);
        lemma_parameter_list_back(
            ts,
            list.push(ts[pos]),
            pos + 2,
            errs,
            ts2,
            list2.push(ts2[q]),
            q + 2,
            errs2,
        );
    } else {
        assert(full[n] == ts[pos]);
        lemma_written_at(ts2, q, tokens, 0);
        lemma_written_at(ts2, q, tokens, 1);
        lemma_placeless_tokens_push(list, ts[pos], list2, ts2[q]);
    }
}

/// The parameters of a function that parse are read again where they stand
/// written between `(` and `)`.
pub proof fn lemma_parameters_back(
    ts: Seq<TokenView>,
    pos: int,
    errs: Seq<ErrorView>,
    ts2: Seq<TokenView>,
    q: int,
    errs2: Seq<ErrorView>,
)
    requires
        well_scanned(ts),
        0 <= pos < ts.len(),
        went_well(parameters_at(ts, pos, errs)),
        check(ts2, q, TokenType::LeftParen),
        written(ts2, q + 1, parameter_tokens(parameters_at(ts, pos, errs).value->0, 0)),
        ts2[q + 1 + parameter_tokens(
            parameters_at(ts, pos, errs).value->0,
            0,
        ).len()].token_type == TokenType::RightParen,
    ensures
        reads_tokens(
            parameters_at(ts, pos, errs),
            parameters_at(ts2, q, errs2),
            q + 2 + parameter_tokens(parameters_at(ts, pos, errs).value->0, 0).len(),
            errs2,
        ),
{
    let r = parameters_at(ts, pos, errs);
    let empty = Seq::<TokenView>::empty();
    lemma_well_scanned_at(ts, pos);
    lemma_parameters_step(ts, pos, errs);
    lemma_parameters_step(ts2, q, errs2);
    lemma_parameters_are_written(r.value->0, 0);
    let tokens = parameter_tokens(r.value->0, 0);
    lemma_written_at(ts2, q + 1, tokens, 0);
    lemma_written_at(ts2, q + 1, tokens, tokens.len() as int);
    if check(ts, pos + 1, TokenType::RightParen) {
    } else {
        lemma_parameter_list_moves(ts, empty, pos + 1, errs);
        lemma_parameter_list_sound(ts, empty, pos + 1, errs);
        lemma_parameters_are_written(r.value->0, 0);
        lemma_parameter_list_step(ts, empty, pos + 1, errs);
        lemma_parameter_list_back(ts, empty, pos + 1, errs, ts2, empty, q + 1, errs2);
    }
}

// ---------------------------------------------------------------------------
// Statements
// ---------------------------------------------------------------------------

/// Whether the list `r2` is the list `r` read again.
pub open spec fn reads_statements(
    r: Parsed<Seq<StatementView>>,
    r2: Parsed<Seq<StatementView>>,
    end: int,
    errs2: Seq<ErrorView>,
) -> bool {
    &&& r2.value is Some
    &&& r2.pos == end
    &&& r2.errors == errs2
    &&& placeless_statements(r2.value->0) == placeless_statements(r.value->0)
}

/// Whether no `else` stands where an `if` without one would take it: at
/// `end`, behind the statement `s`.
pub open spec fn no_stray_else(s: StatementView, ts2: Seq<TokenView>, end: int) -> bool {
    open_ended(s) ==> ts2[end].token_type != TokenType::Else
}

/// A statement that parses is read again where its tokens stand written,
/// before a token that it does not take for its own.
pub proof fn lemma_statement_back(
    ts: Seq<TokenView>,
    pos: int,
    errs: Seq<ErrorView>,
    ts2: Seq<TokenView>,
    q: int,
    errs2: Seq<ErrorView>,
)
    requires
        well_scanned(ts),
        0 <= pos < ts.len(),
        went_well(statement_at(ts, pos, errs)),
        written(ts2, q, statement_tokens(statement_at(ts, pos, errs).value->0)),
        no_stray_else(
            statement_at(ts, pos, errs).value->0,
            ts2,
            q + statement_tokens(statement_at(ts, pos, errs).value->0).len(),
        ),
    ensures
        reads_statement(
            statement_at(ts, pos, errs),
            statement_at(ts2, q, errs2),
            q + statement_tokens(statement_at(ts, pos, errs).value->0).len(),
            errs2,
        ),
    decreases ts.len() - pos, 9int,
{
    let r = statement_at(ts, pos, errs);
    let tokens = statement_tokens(r.value->0);
    lemma_well_scanned_at(ts, pos);
    lemma_statement_step(ts, pos, errs);
    lemma_statement_step(ts2, q, errs2);
    lemma_statement_sound(ts, pos, errs);
    lemma_written_at(ts2, q, tokens, 0);
    if check(ts, pos, TokenType::Print) {
        lemma_print_back(ts, pos, errs, ts2, q, errs2);
    } else if check(ts, pos, TokenType::Return) {
        lemma_return_back(ts, pos, errs, ts2, q, errs2);
    } else if check(ts, pos, TokenType::If) {
        lemma_if_sound(ts, pos + 1, errs);
        lemma_if_back(ts, pos + 1, errs, ts2, q + 1, errs2);
    } else if check(ts, pos, TokenType::While) {
        lemma_while_sound(ts, pos + 1, errs);
        lemma_while_back(ts, pos + 1, errs, ts2, q + 1, errs2);
    } else if check(ts, pos, TokenType::For) {
        lemma_for_sound(ts, pos + 1, errs);
        lemma_for_back(ts, pos + 1, errs, ts2, q, errs2);
    } else if check(ts, pos, TokenType::Break) || check(ts, pos, TokenType::Continue) {
        lemma_jump_back(ts, pos, errs, ts2, q, errs2);
    } else if check(ts, pos, TokenType::LeftBrace) {
        lemma_block_sound(ts, pos, errs);
        lemma_block_back(ts, pos, errs, ts2, q, errs2);
    } else {
        lemma_expression_statement_back(ts, pos, errs, ts2, q, errs2);
    }
}

/// A `print` statement that parses is read again where its tokens stand
/// written.
pub proof fn lemma_print_back(
    ts: Seq<TokenView>,
    pos: int,
    errs: Seq<ErrorView>,
    ts2: Seq<TokenView>,
    q: int,
    errs2: Seq<ErrorView>,
)
    requires
        well_scanned(ts),
        0 <= pos < ts.len(),
        check(ts, pos, TokenType::Print),
        went_well(statement_at(ts, pos, errs)),
        written(ts2, q, statement_tokens(statement_at(ts, pos, errs).value->0)),
    ensures
        reads_statement(
            statement_at(ts, pos, errs),
            statement_at(ts2, q, errs2),
            q + statement_tokens(statement_at(ts, pos, errs).value->0).len(),
            errs2,
        ),
{
    let r = statement_at(ts, pos, errs);
    lemma_well_scanned_at(ts, pos);
    lemma_print_step(ts, pos, errs);
    let e = expression_at(ts, pos + 1, errs);
    lemma_expression_moves(ts, pos + 1, errs);
    let tokens = expression_tokens(e.value->0);
    let head = seq![fixed_token(TokenType::Print)];
    lemma_statement_is_written(r.value->0);
    lemma_written_row(ts2, q, head + tokens, semicolon());
    lemma_written_row(ts2, q, head, tokens);
    lemma_written_at(ts2, q, head, 0);
    lemma_written_at(ts2, q + 1 + tokens.len(), semicolon(), 0);
    lemma_expression_written(ts, pos + 1, errs, ts2, q + 1, errs2);
    lemma_print_step(ts2, q, errs2);
    let e2 = expression_at(ts2, q + 1, errs2);
    lemma_placeless_simple(e.value->0, ts[pos], e2.value->0, ts[pos]);
}

/// A `return` statement that parses is read again where its tokens stand
/// written.
pub proof fn lemma_return_back(
    ts: Seq<TokenView>,
    pos: int,
    errs: Seq<ErrorView>,
    ts2: Seq<TokenView>,
    q: int,
    errs2: Seq<ErrorView>,
)
    requires
        well_scanned(ts),
        0 <= pos < ts.len(),
        check(ts, pos, TokenType::Return),
        went_well(statement_at(ts, pos, errs)),
        written(ts2, q, statement_tokens(statement_at(ts, pos, errs).value->0)),
    ensures
        reads_statement(
            statement_at(ts, pos, errs),
            statement_at(ts2, q, errs2),
            q + statement_tokens(statement_at(ts, pos, errs).value->0).len(),
            errs2,
        ),
{
    let r = statement_at(ts, pos, errs);
    lemma_well_scanned_at(ts, pos);
    lemma_return_step(ts, pos, errs);
    let head = seq![fixed_token(TokenType::Return)];
    lemma_statement_is_written(r.value->0);
    crate::lang::laws::expressions::lemma_fixed_kind_is_fixed_token(ts[pos]);
    if check(ts, pos + 1, TokenType::Semicolon) {
        let none = Seq::<TokenView>::empty();
        lemma_written_row(ts2, q, head + none, semicolon());
        lemma_written_row(ts2, q, head, none);
        lemma_written_at(ts2, q, head, 0);
        lemma_written_at(ts2, q + 1, semicolon(), 0);
        lemma_return_step(ts2, q, errs2);
        let e = ExpressionView::Variable(ts[pos]);
        lemma_placeless_simple(e, ts[pos], e, ts2[q]);
    } else {
        let e = expression_at(ts, pos + 1, errs);
        lemma_expression_moves(ts, pos + 1, errs);
        let tokens = expression_tokens(e.value->0);
        lemma_written_row(ts2, q, head + tokens, semicolon());
        lemma_written_row(ts2, q, head, tokens);
        lemma_written_at(ts2, q, head, 0);
        lemma_written_at(ts2, q + 1 + tokens.len(), semicolon(), 0);
        lemma_expression_written(ts, pos + 1, errs, ts2, q + 1, errs2);
        lemma_expression_sound(ts, pos + 1, errs);
        lemma_return_step(ts2, q, errs2);
        let e2 = expression_at(ts2, q + 1, errs2);
        lemma_placeless_simple(e.value->0, ts[pos], e2.value->0, ts2[q]);
    }
}

/// A `break` or `continue` statement that parses is read again where its
/// tokens stand written.
pub proof fn lemma_jump_back(
    ts: Seq<TokenView>,
    pos: int,
    errs: Seq<ErrorView>,
    ts2: Seq<TokenView>,
    q: int,
    errs2: Seq<ErrorView>,
)
    requires
        well_scanned(ts),
        0 <= pos < ts.len(),
        check(ts, pos, TokenType::Break) || check(ts, pos, TokenType::Continue),
        went_well(statement_at(ts, pos, errs)),
        written(ts2, q, statement_tokens(statement_at(ts, pos, errs).value->0)),
    ensures
        reads_statement(
            statement_at(ts, pos, errs),
            statement_at(ts2, q, errs2),
            q + statement_tokens(statement_at(ts, pos, errs).value->0).len(),
            errs2,
        ),
{
    let r = statement_at(ts, pos, errs);
    lemma_well_scanned_at(ts, pos);
    lemma_jump_step(ts, pos, errs);
    lemma_statement_is_written(r.value->0);
    crate::lang::laws::expressions::lemma_fixed_kind_is_fixed_token(ts[pos]);
    let head = seq![fixed_token(ts[pos].token_type)];
    lemma_written_row(ts2, q, head, semicolon());
    lemma_written_at(ts2, q, head, 0);
    lemma_written_at(ts2, q + 1, semicolon(), 0);
    lemma_jump_step(ts2, q, errs2);
    let e = ExpressionView::Variable(ts[pos]);
    lemma_placeless_simple(e, ts[pos], e, ts2[q]);
}

/// A declaration that parses is read again where its tokens stand written,
/// before a token that it does not take for its own.
pub proof fn lemma_declaration_back(
    ts: Seq<TokenView>,
    pos: int,
    errs: Seq<ErrorView>,
    ts2: Seq<TokenView>,
    q: int,
    errs2: Seq<ErrorView>,
)
    requires
        well_scanned(ts),
        0 <= pos < ts.len(),
        went_well(declaration_at(ts, pos, errs)),
        written(ts2, q, statement_tokens(declaration_at(ts, pos, errs).value->0)),
        no_stray_else(
            declaration_at(ts, pos, errs).value->0,
            ts2,
            q + statement_tokens(declaration_at(ts, pos, errs).value->0).len(),
        ),
    ensures
        reads_statement(
            declaration_at(ts, pos, errs),
            declaration_at(ts2, q, errs2),
            q + statement_tokens(declaration_at(ts, pos, errs).value->0).len(),
            errs2,
        ),
    decreases ts.len() - pos, 11int,
{
    let r = declaration_at(ts, pos, errs);
    lemma_well_scanned_at(ts, pos);
    lemma_declaration_step(ts, pos, errs);
    lemma_declaration_step(ts2, q, errs2);
    if check(ts, pos, TokenType::Variable) {
        lemma_variable_declaration_back(ts, pos + 1, errs, ts2, q + 1, errs2);
    } else if check(ts, pos, TokenType::Function) {
        lemma_function_declaration_back(ts, pos + 1, errs, ts2, q + 1, errs2);
    } else {
        lemma_statement_sound(ts, pos, errs);
        lemma_written_at(ts2, q, statement_tokens(r.value->0), 0);
        lemma_statement_back(ts, pos, errs, ts2, q, errs2);
    }
}

/// A function declaration that parses is read again, behind a `fn`, where
/// its tokens stand written.
pub proof fn lemma_function_declaration_back(
    ts: Seq<TokenView>,
    pos: int,
    errs: Seq<ErrorView>,
    ts2: Seq<TokenView>,
    q: int,
    errs2: Seq<ErrorView>,
)
    requires
        well_scanned(ts),
        0 <= pos < ts.len(),
        went_well(function_declaration_at(ts, pos, errs)),
        written(ts2, q - 1, statement_tokens(function_declaration_at(ts, pos, errs).value->0)),
    ensures
        reads_statement(
            function_declaration_at(ts, pos, errs),
            function_declaration_at(ts2, q, errs2),
            q - 1 + statement_tokens(function_declaration_at(ts, pos, errs).value->0).len(),
            errs2,
        ),
        check(ts2, q - 1, TokenType::Function),
    decreases ts.len() - pos, 10int,
{
    let r = function_declaration_at(ts, pos, errs);
    lemma_function_declaration_step(ts, pos, errs);
    lemma_function_declaration_step(ts2, q, errs2);
    lemma_well_scanned_at(ts, pos);
    let p = parameters_at(ts, pos + 1, errs);
    let b = block_at(ts, p.pos, p.errors);
    lemma_parameters_moves(ts, pos + 1, errs);
    lemma_block_moves(ts, p.pos, p.errors);
    lemma_block_sound(ts, p.pos, p.errors);
    lemma_statement_is_written(r.value->0);
    let head = seq![
        fixed_token(TokenType::Function),
        placeless(ts[pos]),
        fixed_token(TokenType::LeftParen),
    ];
    let parameters = parameter_tokens(p.value->0, 0);
    let close = seq![fixed_token(TokenType::RightParen)];
    let body = statement_tokens(b.value->0);
    lemma_written_row(ts2, q - 1, head + parameters + close, body);
    lemma_written_row(ts2, q - 1, head + parameters, close);
    lemma_written_row(ts2, q - 1, head, parameters);
    lemma_written_at(ts2, q - 1, head, 0);
    lemma_written_at(ts2, q - 1, head, 1);
    lemma_written_at(ts2, q - 1, head, 2);
    lemma_written_at(ts2, q + 2 + parameters.len(), close, 0);
    lemma_parameters_back(ts, pos + 1, errs, ts2, q + 1, errs2);
    let parameters2 = parameters_at(ts2, q + 1, errs2);
    lemma_not_open(b.value->0);
    lemma_block_back(ts, p.pos, p.errors, ts2, parameters2.pos, errs2);
    let b2 = block_at(ts2, parameters2.pos, parameters2.errors);
    lemma_placeless_function(ts[pos], p.value->0, b.value->0, ts2[q], parameters2.value->0, b2.value->0);
}

/// A block does not end with an open `if`.
pub proof fn lemma_not_open(s: StatementView)
    requires
        s is Block,
    ensures
        !open_ended(s),
{
}

/// A block that parses is read again where its tokens stand written.
pub proof fn lemma_block_back(
    ts: Seq<TokenView>,
    pos: int,
    errs: Seq<ErrorView>,
    ts2: Seq<TokenView>,
    q: int,
    errs2: Seq<ErrorView>,
)
    requires
        well_scanned(ts),
        0 <= pos < ts.len(),
        went_well(block_at(ts, pos, errs)),
        written(ts2, q, statement_tokens(block_at(ts, pos, errs).value->0)),
    ensures
        reads_statement(
            block_at(ts, pos, errs),
            block_at(ts2, q, errs2),
            q + statement_tokens(block_at(ts, pos, errs).value->0).len(),
            errs2,
        ),
    decreases ts.len() - pos, 8int,
{
    let r = block_at(ts, pos, errs);
    let empty = Seq::<StatementView>::empty();
    lemma_block_step(ts, pos, errs);
    lemma_block_step(ts2, q, errs2);
    lemma_well_scanned_at(ts, pos);
    let i = block_items_at(ts, empty, pos + 1, errs);
    lemma_block_items_moves(ts, empty, pos + 1, errs);
    lemma_statement_is_written(r.value->0);
    let open = seq![fixed_token(TokenType::LeftBrace)];
    let items = statements_tokens(i.value->0, 0);
    let close = seq![fixed_token(TokenType::RightBrace)];
    lemma_written_row(ts2, q, open + items, close);
    lemma_written_row(ts2, q, open, items);
    lemma_written_at(ts2, q, open, 0);
    lemma_written_at(ts2, q + 1 + items.len(), close, 0);
    lemma_block_items_back(ts, empty, pos + 1, errs, ts2, empty, q + 1, errs2);
    let i2 = block_items_at(ts2, empty, q + 1, errs2);
    lemma_placeless_block(i.value->0, i2.value->0);
}

/// The declarations of a block that parse are read again where their
/// tokens stand written before the end of a block.
pub proof fn lemma_block_items_back(
    ts: Seq<TokenView>,
    list: Seq<StatementView>,
    pos: int,
    errs: Seq<ErrorView>,
    ts2: Seq<TokenView>,
    list2: Seq<StatementView>,
    q: int,
    errs2: Seq<ErrorView>,
)
    requires
        well_scanned(ts),
        0 <= pos < ts.len(),
        went_well(block_items_at(ts, list, pos, errs)),
        written(
            ts2,
            q,
            statements_tokens(block_items_at(ts, list, pos, errs).value->0, list.len() as int),
        ),
        block_ends(
            ts2,
            q + statements_tokens(
                block_items_at(ts, list, pos, errs).value->0,
                list.len() as int,
            ).len(),
        ),
        placeless_statements(list2) == placeless_statements(list),
    ensures
        reads_statements(
            block_items_at(ts, list, pos, errs),
            block_items_at(ts2, list2, q, errs2),
            q + statements_tokens(
                block_items_at(ts, list, pos, errs).value->0,
                list.len() as int,
            ).len(),
            errs2,
        ),
    decreases ts.len() - pos, 12int,
{
    let r = block_items_at(ts, list, pos, errs);
    let full = r.value->0;
    let n = list.len() as int;
    lemma_well_scanned_at(ts, pos);
    lemma_block_items_step(ts, list, pos, errs);
    lemma_block_items_step(ts2, list2, q, errs2);
    lemma_block_items_sound(ts, list, pos, errs);
    lemma_statements_are_written(full, n);
    let tokens = statements_tokens(full, n);
    if !block_ends(ts, pos) {
        let d = declaration_at(ts, pos, errs);
        lemma_declaration_moves(ts, pos, errs);
        lemma_block_items_moves(ts, list.push(d.value->0), d.pos, d.errors);
        lemma_block_items_sound(ts, list.push(d.value->0), d.pos, d.errors);
        lemma_declaration_sound(ts, pos, errs);
        assert(full[n] == d.value->0) by {
            assert(full.subrange(0, n + 1) == list.push(d.value->0));
            assert(full.subrange(0, n + 1)[n] == full[n]);
        }
        let first = statement_tokens(d.value->0);
        let rest = statements_tokens(full, n + 1);
        lemma_written_row(ts2, q, first, rest);
        lemma_written_at(ts2, q, first, 0);
        lemma_written_at(ts2, q + first.len(), rest, 0);
        lemma_declaration_back(ts, pos, errs, ts2, q, errs2);
        let d2 = declaration_at(ts2, q, errs2);
        lemma_placeless_statements_push(list, d.value->0, list2, d2.value->0);
        lemma_block_items_back(
            ts,
            list.push(d.value->0),
            d.pos,
            d.errors,
            ts2,
            list2.push(d2.value->0),
            q + first.len(),
            errs2,
        );
    } else {
        assert(full == list);
    }
}

/// An `if` statement that parses is read again, behind an `if`, where its
/// tokens stand written, before a token that it does not take for its
/// own.
pub proof fn lemma_if_back(
    ts: Seq<TokenView>,
    pos: int,
    errs: Seq<ErrorView>,
    ts2: Seq<TokenView>,
    q: int,
    errs2: Seq<ErrorView>,
)
    requires
        well_scanned(ts),
        0 <= pos < ts.len(),
        went_well(if_at(ts, pos, errs)),
        written(ts2, q - 1, statement_tokens(if_at(ts, pos, errs).value->0)),
        no_stray_else(
            if_at(ts, pos, errs).value->0,
            ts2,
            q - 1 + statement_tokens(if_at(ts, pos, errs).value->0).len(),
        ),
    ensures
        reads_statement(
            if_at(ts, pos, errs),
            if_at(ts2, q, errs2),
            q - 1 + statement_tokens(if_at(ts, pos, errs).value->0).len(),
            errs2,
        ),
    decreases ts.len() - pos, 7int,
{
    let r = if_at(ts, pos, errs);
    lemma_if_step(ts, pos, errs);
    lemma_if_step(ts2, q, errs2);
    lemma_well_scanned_at(ts, pos);
    let c = expression_at(ts, pos + 1, errs);
    lemma_expression_moves(ts, pos + 1, errs);
    lemma_well_scanned_at(ts, c.pos);
    let t = statement_at(ts, c.pos + 1, c.errors);
    lemma_statement_moves(ts, c.pos + 1, c.errors);
    let e = statement_at(ts, t.pos + 1, t.errors);
    lemma_statement_is_written(r.value->0);
    let head = seq![fixed_token(TokenType::If), fixed_token(TokenType::LeftParen)];
    let condition = expression_tokens(c.value->0);
    let close = seq![fixed_token(TokenType::RightParen)];
    let then_tokens = statement_tokens(t.value->0);
    let q0 = q - 1;
    if check(ts, t.pos, TokenType::Else) {
        lemma_well_scanned_at(ts, t.pos);
        lemma_statement_moves(ts, t.pos + 1, t.errors);
        lemma_statement_sound(ts, c.pos + 1, c.errors);
        let else_tokens = statement_tokens(e.value->0);
        let otherwise = seq![fixed_token(TokenType::Else)] + else_tokens;
        lemma_written_row(ts2, q0, head + condition + close + then_tokens, otherwise);
        lemma_written_row(ts2, q0, head + condition + close, then_tokens);
        lemma_written_row(ts2, q0, head + condition, close);
        lemma_written_row(ts2, q0, head, condition);
        let after_then = q0 + 2 + condition.len() + 1 + then_tokens.len();
        lemma_written_row(ts2, after_then, seq![fixed_token(TokenType::Else)], else_tokens);
        lemma_written_at(ts2, q0, head, 1);
        lemma_written_at(ts2, q0 + 2 + condition.len(), close, 0);
        lemma_written_at(ts2, after_then, seq![fixed_token(TokenType::Else)], 0);
        lemma_expression_written(ts, pos + 1, errs, ts2, q + 1, errs2);
        let c2 = expression_at(ts2, q + 1, errs2);
        lemma_statement_back(ts, c.pos + 1, c.errors, ts2, c2.pos + 1, errs2);
        let t2 = statement_at(ts2, c2.pos + 1, c2.errors);
        lemma_statement_back(ts, t.pos + 1, t.errors, ts2, t2.pos + 1, errs2);
        let e2 = statement_at(ts2, t2.pos + 1, t2.errors);
        lemma_placeless_compound(
            c.value->0,
            t.value->0,
            e.value->0,
            c2.value->0,
            t2.value->0,
            e2.value->0,
        );
    } else {
        lemma_written_row(ts2, q0, head + condition + close, then_tokens);
        lemma_written_row(ts2, q0, head + condition, close);
        lemma_written_row(ts2, q0, head, condition);
        lemma_written_at(ts2, q0, head, 1);
        lemma_written_at(ts2, q0 + 2 + condition.len(), close, 0);
        lemma_written_at(
            ts2,
            q0 + 2 + condition.len() + 1,
            then_tokens,
            then_tokens.len() as int,
        );
        lemma_expression_written(ts, pos + 1, errs, ts2, q + 1, errs2);
        let c2 = expression_at(ts2, q + 1, errs2);
        lemma_statement_back(ts, c.pos + 1, c.errors, ts2, c2.pos + 1, errs2);
        let t2 = statement_at(ts2, c2.pos + 1, c2.errors);
        lemma_placeless_compound(
            c.value->0,
            t.value->0,
            t.value->0,
            c2.value->0,
            t2.value->0,
            t2.value->0,
        );
    }
}

/// A `while` statement that parses is read again, behind a `while`, where
/// its tokens stand written, before a token that it does not take for its
/// own.
pub proof fn lemma_while_back(
    ts: Seq<TokenView>,
    pos: int,
    errs: Seq<ErrorView>,
    ts2: Seq<TokenView>,
    q: int,
    errs2: Seq<ErrorView>,
)
    requires
        well_scanned(ts),
        0 <= pos < ts.len(),
        went_well(while_at(ts, pos, errs)),
        written(ts2, q - 1, statement_tokens(while_at(ts, pos, errs).value->0)),
        no_stray_else(
            while_at(ts, pos, errs).value->0,
            ts2,
            q - 1 + statement_tokens(while_at(ts, pos, errs).value->0).len(),
        ),
    ensures
        reads_statement(
            while_at(ts, pos, errs),
            while_at(ts2, q, errs2),
            q - 1 + statement_tokens(while_at(ts, pos, errs).value->0).len(),
            errs2,
        ),
    decreases ts.len() - pos, 7int,
{
    let r = while_at(ts, pos, errs);
    lemma_while_step(ts, pos, errs);
    lemma_while_step(ts2, q, errs2);
    lemma_well_scanned_at(ts, pos);
    let c = expression_at(ts, pos + 1, errs);
    lemma_expression_moves(ts, pos + 1, errs);
    lemma_well_scanned_at(ts, c.pos);
    let b = statement_at(ts, c.pos + 1, c.errors);
    lemma_statement_moves(ts, c.pos + 1, c.errors);
    lemma_statement_is_written(r.value->0);
    let head = seq![fixed_token(TokenType::While), fixed_token(TokenType::LeftParen)];
    let condition = expression_tokens(c.value->0);
    let close = seq![fixed_token(TokenType::RightParen)];
    let body = statement_tokens(b.value->0);
    let q0 = q - 1;
    lemma_written_row(ts2, q0, head + condition + close, body);
    lemma_written_row(ts2, q0, head + condition, close);
    lemma_written_row(ts2, q0, head, condition);
    lemma_written_at(ts2, q0, head, 1);
    lemma_written_at(ts2, q0 + 2 + condition.len(), close, 0);
    lemma_expression_written(ts, pos + 1, errs, ts2, q + 1, errs2);
    let c2 = expression_at(ts2, q + 1, errs2);
    lemma_statement_back(ts, c.pos + 1, c.errors, ts2, c2.pos + 1, errs2);
    let b2 = statement_at(ts2, c2.pos + 1, c2.errors);
    lemma_placeless_compound(
        c.value->0,
        b.value->0,
        b.value->0,
        c2.value->0,
        b2.value->0,
        b2.value->0,
    );
}

// ---------------------------------------------------------------------------
// What a `for` loop stands for
// ---------------------------------------------------------------------------

/// Whether `r2` found the statement `v`, but for places, ended at `end`
/// and recorded nothing.
pub open spec fn reads_value(
    v: StatementView,
    r2: Parsed<StatementView>,
    end: int,
    errs2: Seq<ErrorView>,
) -> bool {
    &&& r2.value is Some
    &&& r2.pos == end
    &&& r2.errors == errs2
    &&& placeless_statement(r2.value->0) == placeless_statement(v)
}

/// A chain of one operand: a unary expression before a token that ends
/// every chain is a chain of each level.
pub proof fn lemma_level_of_one(
    ts2: Seq<TokenView>,
    level: int,
    p: int,
    end: int,
    errs2: Seq<ErrorView>,
    v: ExpressionView,
)
    requires
        0 <= level < binary_levels(),
        p <= end <= ts2.len(),
        unary_at(ts2, p, errs2) == done(v, end, errs2),
        at_end(ts2, end) || stops(0, ts2[end].token_type),
    ensures
        binary_at(ts2, level, p, errs2) == done(v, end, errs2),
    decreases binary_levels() - level,
{
    lemma_operand_step(ts2, level, p, errs2);
    if level + 1 < binary_levels() {
        lemma_level_of_one(ts2, level + 1, p, end, errs2, v);
    }
    lemma_binary_step(ts2, level, p, errs2);
    lemma_binary_rest_step(ts2, level, v, end, errs2);
}

/// An expression of one token: a primary expression of one token, before
/// a token that ends an expression, is an expression.
pub proof fn lemma_expression_of_one(
    ts2: Seq<TokenView>,
    p: int,
    errs2: Seq<ErrorView>,
    v: ExpressionView,
)
    requires
        0 <= p,
        p + 1 < ts2.len(),
        primary_at(ts2, p, errs2) == done(v, p + 1, errs2),
        !negates(ts2, p),
        stops_expression(ts2[p + 1].token_type),
    ensures
        expression_at(ts2, p, errs2) == done(v, p + 1, errs2),
{
    lemma_call_step(ts2, p, errs2);
    lemma_call_rest_step(ts2, v, p + 1, errs2);
    lemma_unary_step(ts2, p, errs2);
    lemma_level_of_one(ts2, 0, p, p + 1, errs2, v);
    lemma_assignment_step(ts2, p, errs2);
    lemma_expression_step(ts2, p, errs2);
}

/// `true` is a primary expression.
pub proof fn lemma_true_is_primary(ts2: Seq<TokenView>, p: int, errs2: Seq<ErrorView>)
    requires
        check(ts2, p, TokenType::True),
    ensures
        primary_at(ts2, p, errs2) == done(
            ExpressionView::Literal(LiteralView::Boolean(true)),
            p + 1,
            errs2,
        ),
        !negates(ts2, p),
{
    reveal(primary_at);
}

/// The parts of a `for` statement that parses: its clauses and its body
/// went well, one behind the other.
pub proof fn lemma_for_parts(ts: Seq<TokenView>, pos: int, errs: Seq<ErrorView>)
    requires
        well_scanned(ts),
        0 <= pos < ts.len(),
        went_well(for_at(ts, pos, errs)),
    ensures
        ({
            let c = clauses_at(ts, pos, errs);
            let b = statement_at(ts, c.pos, c.errors);
            let i = initializer_at(ts, pos + 1, errs);
            let o = optional_at(ts, i.pos, i.errors, TokenType::Semicolon);
            let n = optional_at(ts, o.pos + 1, o.errors, TokenType::RightParen);
            &&& errs.len() == 0
            &&& check(ts, pos, TokenType::LeftParen)
            &&& went_well(c) && pos < c.pos < ts.len()
            &&& went_well(b) && c.pos < b.pos < ts.len()
            &&& for_at(ts, pos, errs) == done(
                crate::lang::grammar::desugared_for(c.value->0, b.value->0),
                b.pos,
                b.errors,
            )
            &&& went_well(i) && pos + 1 < i.pos < ts.len()
            &&& went_well(o) && i.pos <= o.pos < ts.len() && check(
                ts,
                o.pos,
                TokenType::Semicolon,
            )
            &&& went_well(n) && o.pos + 1 <= n.pos < ts.len() && check(
                ts,
                n.pos,
                TokenType::RightParen,
            )
            &&& c.pos == n.pos + 1
            &&& c.value->0 == (ForClauses {
                initializer: i.value->0,
                condition: o.value->0,
                increment: n.value->0,
            })
        }),
{
    lemma_well_scanned_at(ts, pos);
    lemma_for_step(ts, pos, errs);
    lemma_clauses_moves(ts, pos, errs);
    let c = clauses_at(ts, pos, errs);
    lemma_statement_moves(ts, c.pos, c.errors);
    lemma_clauses_step(ts, pos, errs);
    lemma_initializer_moves(ts, pos + 1, errs);
    let i = initializer_at(ts, pos + 1, errs);
    lemma_optional_moves(ts, i.pos, i.errors, TokenType::Semicolon);
    let o = optional_at(ts, i.pos, i.errors, TokenType::Semicolon);
    lemma_well_scanned_at(ts, o.pos);
    lemma_optional_moves(ts, o.pos + 1, o.errors, TokenType::RightParen);
}

/// The condition of the loop that a `for` statement stands for is read
/// again where it stands written before a `)`.
pub proof fn lemma_for_condition_back(
    ts: Seq<TokenView>,
    pos: int,
    errs: Seq<ErrorView>,
    ts2: Seq<TokenView>,
    p: int,
    errs2: Seq<ErrorView>,
)
    requires
        well_scanned(ts),
        0 <= pos < ts.len(),
        went_well(for_at(ts, pos, errs)),
        written(
            ts2,
            p,
            match clauses_at(ts, pos, errs).value->0.condition {
                Some(e) => expression_tokens(e),
                None => seq![fixed_token(TokenType::True)],
            },
        ),
        ts2[p + (match clauses_at(ts, pos, errs).value->0.condition {
            Some(e) => expression_tokens(e),
            None => seq![fixed_token(TokenType::True)],
        }).len()].token_type == TokenType::RightParen,
    ensures
        ({
            let c = clauses_at(ts, pos, errs).value->0;
            let tokens = match c.condition {
                Some(e) => expression_tokens(e),
                None => seq![fixed_token(TokenType::True)],
            };
            let condition = match c.condition {
                Some(e) => e,
                None => ExpressionView::Literal(LiteralView::Boolean(true)),
            };
            let r2 = expression_at(ts2, p, errs2);
            &&& r2.value is Some
            &&& r2.pos == p + tokens.len()
            &&& r2.errors == errs2
            &&& placeless_expression(r2.value->0) == placeless_expression(condition)
        }),
{
    lemma_for_parts(ts, pos, errs);
    let i = initializer_at(ts, pos + 1, errs);
    let o = optional_at(ts, i.pos, i.errors, TokenType::Semicolon);
    lemma_optional_step(ts, i.pos, i.errors, TokenType::Semicolon);
    if check(ts, i.pos, TokenType::Semicolon) {
        let tokens = seq![fixed_token(TokenType::True)];
        lemma_written_at(ts2, p, tokens, 0);
        lemma_written_at(ts2, p, tokens, 1);
        lemma_true_is_primary(ts2, p, errs2);
        lemma_expression_of_one(
            ts2,
            p,
            errs2,
            ExpressionView::Literal(LiteralView::Boolean(true)),
        );
    } else {
        lemma_expression_written(ts, i.pos, i.errors, ts2, p, errs2);
    }
}

/// The increment of a `for` statement is read again, as an expression
/// statement, where it stands written with a `;` behind it.
pub proof fn lemma_for_increment_back(
    ts: Seq<TokenView>,
    pos: int,
    errs: Seq<ErrorView>,
    ts2: Seq<TokenView>,
    p: int,
    errs2: Seq<ErrorView>,
)
    requires
        well_scanned(ts),
        0 <= pos < ts.len(),
        went_well(for_at(ts, pos, errs)),
        clauses_at(ts, pos, errs).value->0.increment is Some,
        written(
            ts2,
            p,
            expression_tokens(clauses_at(ts, pos, errs).value->0.increment->0) + semicolon(),
        ),
    ensures
        reads_value(
            StatementView::Expression(clauses_at(ts, pos, errs).value->0.increment->0),
            declaration_at(ts2, p, errs2),
            p + expression_tokens(clauses_at(ts, pos, errs).value->0.increment->0).len() + 1,
            errs2,
        ),
        !block_ends(ts2, p),
{
    lemma_for_parts(ts, pos, errs);
    let i = initializer_at(ts, pos + 1, errs);
    let o = optional_at(ts, i.pos, i.errors, TokenType::Semicolon);
    let n = optional_at(ts, o.pos + 1, o.errors, TokenType::RightParen);
    lemma_optional_step(ts, o.pos + 1, o.errors, TokenType::RightParen);
    let e = expression_at(ts, o.pos + 1, o.errors);
    let tokens = expression_tokens(e.value->0);
    lemma_written_row(ts2, p, tokens, semicolon());
    lemma_written_at(ts2, p + tokens.len(), semicolon(), 0);
    lemma_expression_written(ts, o.pos + 1, o.errors, ts2, p, errs2);
    lemma_expression_sound(ts, o.pos + 1, o.errors);
    lemma_written_at(ts2, p, tokens, 0);
    lemma_declaration_step(ts2, p, errs2);
    lemma_statement_step(ts2, p, errs2);
    lemma_expression_statement_step(ts2, p, errs2);
    let e2 = expression_at(ts2, p, errs2);
    lemma_placeless_simple(e.value->0, ts[pos], e2.value->0, ts[pos]);
}

/// The initializer of a `for` statement is read again, as a declaration,
/// where it stands written.
pub proof fn lemma_for_initializer_back(
    ts: Seq<TokenView>,
    pos: int,
    errs: Seq<ErrorView>,
    ts2: Seq<TokenView>,
    p: int,
    errs2: Seq<ErrorView>,
)
    requires
        well_scanned(ts),
        0 <= pos < ts.len(),
        went_well(for_at(ts, pos, errs)),
        clauses_at(ts, pos, errs).value->0.initializer is Some,
        written(ts2, p, statement_tokens(clauses_at(ts, pos, errs).value->0.initializer->0)),
    ensures
        reads_value(
            clauses_at(ts, pos, errs).value->0.initializer->0,
            declaration_at(ts2, p, errs2),
            p + statement_tokens(clauses_at(ts, pos, errs).value->0.initializer->0).len(),
            errs2,
        ),
        !block_ends(ts2, p),
{
    lemma_for_parts(ts, pos, errs);
    lemma_well_scanned_at(ts, pos + 1);
    lemma_initializer_step(ts, pos + 1, errs);
    let i = initializer_at(ts, pos + 1, errs);
    let tokens = statement_tokens(i.value->0->0);
    lemma_declaration_step(ts2, p, errs2);
    lemma_written_at(ts2, p, tokens, 0);
    if check(ts, pos + 1, TokenType::Variable) {
        lemma_variable_declaration_sound(ts, pos + 2, errs);
        lemma_variable_declaration_back(ts, pos + 2, errs, ts2, p + 1, errs2);
    } else {
        lemma_expression_statement_sound(ts, pos + 1, errs);
        lemma_expression_statement_back(ts, pos + 1, errs, ts2, p, errs2);
        lemma_statement_step(ts2, p, errs2);
    }
}

/// The body of a `for` statement is read again, as a statement and as a
/// declaration, where it stands written.
pub proof fn lemma_for_body_back(
    ts: Seq<TokenView>,
    pos: int,
    errs: Seq<ErrorView>,
    ts2: Seq<TokenView>,
    p: int,
    errs2: Seq<ErrorView>,
)
    requires
        well_scanned(ts),
        0 <= pos < ts.len(),
        went_well(for_at(ts, pos, errs)),
        written(
            ts2,
            p,
            statement_tokens(
                statement_at(
                    ts,
                    clauses_at(ts, pos, errs).pos,
                    clauses_at(ts, pos, errs).errors,
                ).value->0,
            ),
        ),
        no_stray_else(
            statement_at(
                ts,
                clauses_at(ts, pos, errs).pos,
                clauses_at(ts, pos, errs).errors,
            ).value->0,
            ts2,
            p + statement_tokens(
                statement_at(
                    ts,
                    clauses_at(ts, pos, errs).pos,
                    clauses_at(ts, pos, errs).errors,
                ).value->0,
            ).len(),
        ),
    ensures
        ({
            let c = clauses_at(ts, pos, errs);
            let b = statement_at(ts, c.pos, c.errors);
            &&& reads_value(
                b.value->0,
                statement_at(ts2, p, errs2),
                p + statement_tokens(b.value->0).len(),
                errs2,
            )
            &&& declaration_at(ts2, p, errs2) == statement_at(ts2, p, errs2)
            &&& !block_ends(ts2, p)
        }),
    decreases ts.len() - pos, 3int,
{
    lemma_for_parts(ts, pos, errs);
    let c = clauses_at(ts, pos, errs);
    let b = statement_at(ts, c.pos, c.errors);
    lemma_statement_sound(ts, c.pos, c.errors);
    lemma_written_at(ts2, p, statement_tokens(b.value->0), 0);
    lemma_statement_back(ts, c.pos, c.errors, ts2, p, errs2);
    lemma_declaration_step(ts2, p, errs2);
}

/// Two declarations, one behind the other and before the end of a block,
/// are the declarations of the block.
pub proof fn lemma_two_items(
    ts2: Seq<TokenView>,
    p: int,
    errs2: Seq<ErrorView>,
    a: StatementView,
    first_end: int,
    b: StatementView,
    second_end: int,
)
    requires
        !block_ends(ts2, p),
        declaration_at(ts2, p, errs2) == done(a, first_end, errs2),
        p + 1 <= first_end <= ts2.len(),
        !block_ends(ts2, first_end),
        declaration_at(ts2, first_end, errs2) == done(b, second_end, errs2),
        first_end + 1 <= second_end <= ts2.len(),
        block_ends(ts2, second_end),
    ensures
        block_items_at(ts2, Seq::empty(), p, errs2) == done(seq![a, b], second_end, errs2),
{
    let empty = Seq::<StatementView>::empty();
    lemma_block_items_step(ts2, empty, p, errs2);
    lemma_block_items_step(ts2, empty.push(a), first_end, errs2);
    lemma_block_items_step(ts2, empty.push(a).push(b), second_end, errs2);
    assert(empty.push(a).push(b) =~= seq![a, b]);
}

/// One declaration before the end of a block is the declaration of the
/// block.
pub proof fn lemma_one_item(
    ts2: Seq<TokenView>,
    p: int,
    errs2: Seq<ErrorView>,
    a: StatementView,
    first_end: int,
)
    requires
        !block_ends(ts2, p),
        declaration_at(ts2, p, errs2) == done(a, first_end, errs2),
        p + 1 <= first_end <= ts2.len(),
        block_ends(ts2, first_end),
    ensures
        block_items_at(ts2, Seq::empty(), p, errs2) == done(seq![a], first_end, errs2),
{
    let empty = Seq::<StatementView>::empty();
    lemma_block_items_step(ts2, empty, p, errs2);
    lemma_block_items_step(ts2, empty.push(a), first_end, errs2);
    assert(empty.push(a) =~= seq![a]);
}

/// Two blocks of two statements differ in places only if the statements
/// do; so do two blocks of one statement.
pub proof fn lemma_placeless_items(
    a: StatementView,
    b: StatementView,
    a2: StatementView,
    b2: StatementView,
)
    requires
        placeless_statement(a2) == placeless_statement(a),
        placeless_statement(b2) == placeless_statement(b),
    ensures
        placeless_statement(StatementView::Block(seq![a2, b2])) == placeless_statement(
            StatementView::Block(seq![a, b]),
        ),
        placeless_statement(StatementView::Block(seq![a2])) == placeless_statement(
            StatementView::Block(seq![a]),
        ),
{
    let empty = Seq::<StatementView>::empty();
    reveal(placeless_statements);
    assert(placeless_statements(empty) =~= placeless_statements(empty));
    lemma_placeless_statements_push(empty, a, empty, a2);
    lemma_placeless_statements_push(empty.push(a), b, empty.push(a2), b2);
    assert(empty.push(a).push(b) =~= seq![a, b]);
    assert(empty.push(a2).push(b2) =~= seq![a2, b2]);
    assert(empty.push(a) =~= seq![a]);
    assert(empty.push(a2) =~= seq![a2]);
    lemma_placeless_block(seq![a, b], seq![a2, b2]);
    lemma_placeless_block(seq![a], seq![a2]);
}

/// The body of the loop that a `for` statement stands for is read again
/// where it stands written.
pub proof fn lemma_for_stepped_back(
    ts: Seq<TokenView>,
    pos: int,
    errs: Seq<ErrorView>,
    ts2: Seq<TokenView>,
    p: int,
    errs2: Seq<ErrorView>,
)
    requires
        well_scanned(ts),
        0 <= pos < ts.len(),
        went_well(for_at(ts, pos, errs)),
        written(
            ts2,
            p,
            statement_tokens(
                stepped_body(
                    clauses_at(ts, pos, errs).value->0,
                    statement_at(
                        ts,
                        clauses_at(ts, pos, errs).pos,
                        clauses_at(ts, pos, errs).errors,
                    ).value->0,
                ),
            ),
        ),
        ts2[p + statement_tokens(
            stepped_body(
                clauses_at(ts, pos, errs).value->0,
                statement_at(
                    ts,
                    clauses_at(ts, pos, errs).pos,
                    clauses_at(ts, pos, errs).errors,
                ).value->0,
            ),
        ).len()].token_type == TokenType::RightBrace,
    ensures
        ({
            let c = clauses_at(ts, pos, errs);
            let b = statement_at(ts, c.pos, c.errors);
            let stepped = stepped_body(c.value->0, b.value->0);
            reads_value(
                stepped,
                statement_at(ts2, p, errs2),
                p + statement_tokens(stepped).len(),
                errs2,
            )
        }),
    decreases ts.len() - pos, 4int,
{
    lemma_for_parts(ts, pos, errs);
    let c = clauses_at(ts, pos, errs);
    let b = statement_at(ts, c.pos, c.errors);
    let body = statement_tokens(b.value->0);
    lemma_for_is_written(c.value->0, b.value->0);
    if c.value->0.increment is Some {
        let e = c.value->0.increment->0;
        let open = seq![fixed_token(TokenType::LeftBrace)];
        let close = seq![fixed_token(TokenType::RightBrace)];
        let step = expression_tokens(e) + semicolon();
        lemma_clauses_sound(ts, pos, errs);
        lemma_written_row(ts2, p, open + body + step, close);
        lemma_written_row(ts2, p, open + body, step);
        lemma_written_row(ts2, p, open, body);
        lemma_written_at(ts2, p, open, 0);
        lemma_written_at(ts2, p + 1 + body.len(), step, 0);
        lemma_written_at(ts2, p + 1 + body.len() + step.len(), close, 0);
        lemma_for_body_back(ts, pos, errs, ts2, p + 1, errs2);
        lemma_for_increment_back(ts, pos, errs, ts2, p + 1 + body.len(), errs2);
        let b2 = statement_at(ts2, p + 1, errs2);
        let e2 = declaration_at(ts2, p + 1 + body.len(), errs2);
        lemma_two_items(
            ts2,
            p + 1,
            errs2,
            b2.value->0,
            p + 1 + body.len(),
            e2.value->0,
            p + 1 + body.len() + step.len(),
        );
        lemma_block_step(ts2, p, errs2);
        lemma_statement_step(ts2, p, errs2);
        lemma_placeless_items(
            b.value->0,
            StatementView::Expression(e),
            b2.value->0,
            e2.value->0,
        );
    } else {
        lemma_for_body_back(ts, pos, errs, ts2, p, errs2);
    }
}

/// The loop that a `for` statement stands for is read again, as a
/// declaration, where it stands written before a `}`.
pub proof fn lemma_for_repeated_back(
    ts: Seq<TokenView>,
    pos: int,
    errs: Seq<ErrorView>,
    ts2: Seq<TokenView>,
    p: int,
    errs2: Seq<ErrorView>,
)
    requires
        well_scanned(ts),
        0 <= pos < ts.len(),
        went_well(for_at(ts, pos, errs)),
        written(
            ts2,
            p,
            statement_tokens(
                repeated(
                    clauses_at(ts, pos, errs).value->0,
                    statement_at(
                        ts,
                        clauses_at(ts, pos, errs).pos,
                        clauses_at(ts, pos, errs).errors,
                    ).value->0,
                ),
            ),
        ),
        ts2[p + statement_tokens(
            repeated(
                clauses_at(ts, pos, errs).value->0,
                statement_at(
                    ts,
                    clauses_at(ts, pos, errs).pos,
                    clauses_at(ts, pos, errs).errors,
                ).value->0,
            ),
        ).len()].token_type == TokenType::RightBrace,
    ensures
        ({
            let c = clauses_at(ts, pos, errs);
            let b = statement_at(ts, c.pos, c.errors);
            let looped = repeated(c.value->0, b.value->0);
            &&& reads_value(
                looped,
                declaration_at(ts2, p, errs2),
                p + statement_tokens(looped).len(),
                errs2,
            )
            &&& !block_ends(ts2, p)
        }),
    decreases ts.len() - pos, 5int,
{
    lemma_for_parts(ts, pos, errs);
    let c = clauses_at(ts, pos, errs);
    let b = statement_at(ts, c.pos, c.errors);
    let stepped = stepped_body(c.value->0, b.value->0);
    lemma_for_is_written(c.value->0, b.value->0);
    let head = seq![fixed_token(TokenType::While), fixed_token(TokenType::LeftParen)];
    let condition = match c.value->0.condition {
        Some(e) => expression_tokens(e),
        None => seq![fixed_token(TokenType::True)],
    };
    let close = seq![fixed_token(TokenType::RightParen)];
    let body = statement_tokens(stepped);
    lemma_written_row(ts2, p, head + condition + close, body);
    lemma_written_row(ts2, p, head + condition, close);
    lemma_written_row(ts2, p, head, condition);
    lemma_written_at(ts2, p, head, 0);
    lemma_written_at(ts2, p, head, 1);
    lemma_written_at(ts2, p + 2 + condition.len(), close, 0);
    lemma_for_condition_back(ts, pos, errs, ts2, p + 2, errs2);
    lemma_for_stepped_back(ts, pos, errs, ts2, p + 2 + condition.len() + 1, errs2);
    lemma_declaration_step(ts2, p, errs2);
    lemma_statement_step(ts2, p, errs2);
    lemma_while_step(ts2, p + 1, errs2);
    let c2 = expression_at(ts2, p + 2, errs2);
    let s2 = statement_at(ts2, c2.pos + 1, c2.errors);
    let condition_value = match c.value->0.condition {
        Some(e) => e,
        None => ExpressionView::Literal(LiteralView::Boolean(true)),
    };
    lemma_placeless_compound(
        condition_value,
        stepped,
        stepped,
        c2.value->0,
        s2.value->0,
        s2.value->0,
    );
}

/// What a `for` statement that parses stands for is read again, as a
/// block, where its tokens stand written.
pub proof fn lemma_for_back(
    ts: Seq<TokenView>,
    pos: int,
    errs: Seq<ErrorView>,
    ts2: Seq<TokenView>,
    q: int,
    errs2: Seq<ErrorView>,
)
    requires
        well_scanned(ts),
        0 <= pos < ts.len(),
        went_well(for_at(ts, pos, errs)),
        written(ts2, q, statement_tokens(for_at(ts, pos, errs).value->0)),
    ensures
        reads_statement(
            for_at(ts, pos, errs),
            block_at(ts2, q, errs2),
            q + statement_tokens(for_at(ts, pos, errs).value->0).len(),
            errs2,
        ),
        check(ts2, q, TokenType::LeftBrace),
    decreases ts.len() - pos, 6int,
{
    lemma_for_parts(ts, pos, errs);
    let c = clauses_at(ts, pos, errs);
    let b = statement_at(ts, c.pos, c.errors);
    let looped = repeated(c.value->0, b.value->0);
    lemma_for_is_written(c.value->0, b.value->0);
    let open = seq![fixed_token(TokenType::LeftBrace)];
    let close = seq![fixed_token(TokenType::RightBrace)];
    let initializer = match c.value->0.initializer {
        Some(i) => statement_tokens(i),
        None => Seq::empty(),
    };
    let loop_tokens = statement_tokens(looped);
    lemma_written_row(ts2, q, open + initializer + loop_tokens, close);
    lemma_written_row(ts2, q, open + initializer, loop_tokens);
    lemma_written_row(ts2, q, open, initializer);
    lemma_written_at(ts2, q, open, 0);
    lemma_written_at(ts2, q + 1 + initializer.len() + loop_tokens.len(), close, 0);
    lemma_for_repeated_back(ts, pos, errs, ts2, q + 1 + initializer.len(), errs2);
    let l2 = declaration_at(ts2, q + 1 + initializer.len(), errs2);
    lemma_block_step(ts2, q, errs2);
    if c.value->0.initializer is Some {
        lemma_for_initializer_back(ts, pos, errs, ts2, q + 1, errs2);
        let i2 = declaration_at(ts2, q + 1, errs2);
        lemma_clauses_sound(ts, pos, errs);
        lemma_two_items(
            ts2,
            q + 1,
            errs2,
            i2.value->0,
            q + 1 + initializer.len(),
            l2.value->0,
            q + 1 + initializer.len() + loop_tokens.len(),
        );
        lemma_placeless_items(c.value->0.initializer->0, looped, i2.value->0, l2.value->0);
    } else {
        lemma_one_item(
            ts2,
            q + 1,
            errs2,
            l2.value->0,
            q + 1 + loop_tokens.len(),
        );
        lemma_placeless_items(looped, looped, l2.value->0, l2.value->0);
    }
}


// ---------------------------------------------------------------------------
// Programs
// ---------------------------------------------------------------------------

/// The declarations of a program that parse are read again where their
/// tokens stand written before the end token.
pub proof fn lemma_program_back(
    ts: Seq<TokenView>,
    list: Seq<StatementView>,
    pos: int,
    errs: Seq<ErrorView>,
    ts2: Seq<TokenView>,
    list2: Seq<StatementView>,
    q: int,
    errs2: Seq<ErrorView>,
)
    requires
        well_scanned(ts),
        0 <= pos < ts.len(),
        went_well(program_at(ts, list, pos, errs)),
        written(
            ts2,
            q,
            statements_tokens(program_at(ts, list, pos, errs).value->0, list.len() as int),
        ),
        at_end(
            ts2,
            q + statements_tokens(
                program_at(ts, list, pos, errs).value->0,
                list.len() as int,
            ).len(),
        ),
        errs2.len() == 0,
        placeless_statements(list2) == placeless_statements(list),
    ensures
        reads_statements(
            program_at(ts, list, pos, errs),
            program_at(ts2, list2, q, errs2),
            q + statements_tokens(
                program_at(ts, list, pos, errs).value->0,
                list.len() as int,
            ).len(),
            errs2,
        ),
    decreases ts.len() - pos,
{
    let r = program_at(ts, list, pos, errs);
    let full = r.value->0;
    let n = list.len() as int;
    lemma_well_scanned_at(ts, pos);
    lemma_program_step(ts, list, pos, errs);
    lemma_program_step(ts2, list2, q, errs2);
    lemma_program_sound(ts, list, pos, errs);
    lemma_statements_are_written(full, n);
    let tokens = statements_tokens(full, n);
    if !at_end(ts, pos) {
        let d = declaration_at(ts, pos, errs);
        lemma_declaration_moves(ts, pos, errs);
        lemma_program_sound(ts, list.push(d.value->0), d.pos, d.errors);
        lemma_declaration_sound(ts, pos, errs);
        assert(full[n] == d.value->0) by {
            assert(full.subrange(0, n + 1) == list.push(d.value->0));
            assert(full.subrange(0, n + 1)[n] == full[n]);
        }
        let first = statement_tokens(d.value->0);
        let rest = statements_tokens(full, n + 1);
        lemma_written_row(ts2, q, first, rest);
        lemma_written_at(ts2, q, first, 0);
        lemma_written_at(ts2, q + first.len(), rest, 0);
        lemma_declaration_back(ts, pos, errs, ts2, q, errs2);
        let d2 = declaration_at(ts2, q, errs2);
        lemma_placeless_statements_push(list, d.value->0, list2, d2.value->0);
        lemma_program_back(
            ts,
            list.push(d.value->0),
            d.pos,
            d.errors,
            ts2,
            list2.push(d2.value->0),
            q + first.len(),
            errs2,
        );
    } else {
        assert(full == list);
    }
}

} // verus!
