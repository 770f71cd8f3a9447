//! What holds of every statement that parses: the tokens that write it are
//! tokens as the scanner makes them, and they begin and end as the grammar
//! needs it to read them again.

use vstd::prelude::*;
use vstd::string::*;
use crate::lang::errors::ErrorView;
use crate::lang::grammar::{check, desugared_for, ForClauses, Parsed};
use crate::lang::lexer::{LiteralView, TokenType, TokenView};
use crate::lang::laws::scanning::{fixed_lexeme, law_fixed_lexemes_are_tokens};
use crate::lang::parser::{ExpressionView, StatementView};
use crate::lang::laws::expressions::{
    agree,
    lemma_expression_tokens,
    lemma_well_scanned_at,
    same_token,
    scannable,
    segment,
    starts_expression,
    well_scanned,
    went_well,
};
use crate::lang::laws::progress::{
    lemma_block_items_moves,
    lemma_block_moves,
    lemma_clauses_moves,
    lemma_declaration_moves,
    lemma_expression_moves,
    lemma_initializer_moves,
    lemma_optional_moves,
    lemma_parameter_list_moves,
    lemma_parameters_moves,
    lemma_statement_moves,
};
use crate::lang::laws::reading::expression_at;
use crate::lang::laws::steps::{
    block_at,
    block_ends,
    block_items_at,
    clauses_at,
    declaration_at,
    expression_statement_at,
    for_at,
    function_declaration_at,
    if_at,
    initializer_at,
    lemma_block_items_step,
    lemma_block_step,
    lemma_clauses_step,
    lemma_declaration_step,
    lemma_expression_statement_step,
    lemma_for_step,
    lemma_function_declaration_step,
    lemma_if_step,
    lemma_initializer_step,
    lemma_jump_step,
    lemma_optional_step,
    lemma_parameter_list_limit,
    lemma_parameter_list_step,
    lemma_parameters_step,
    lemma_print_step,
    lemma_program_step,
    lemma_return_step,
    lemma_statement_step,
    lemma_variable_declaration_step,
    lemma_while_step,
    optional_at,
    parameter_list_at,
    parameters_at,
    program_at,
    statement_at,
    variable_declaration_at,
    while_at,
};
use crate::lang::rendering::{
    expression_tokens,
    fixed_token,
    parameter_tokens,
    placeless,
    statement_tokens,
    statements_tokens,
};

verus! {

// ---------------------------------------------------------------------------
// Tokens as the scanner makes them
// ---------------------------------------------------------------------------

/// Whether every token of `tokens` is as the scanner makes it.
#[verifier::opaque]
pub open spec fn all_scannable(tokens: Seq<TokenView>) -> bool {
    forall|k: int| 0 <= k < tokens.len() ==> scannable(#[trigger] tokens[k])
}

/// What [`all_scannable`] says of the token at `k`.
pub proof fn lemma_scannable_at(tokens: Seq<TokenView>, k: int)
    requires
        all_scannable(tokens),
        0 <= k < tokens.len(),
    ensures
        scannable(tokens[k]),
{
    reveal(all_scannable);
}

/// Two rows of scanned tokens make a row of scanned tokens.
pub proof fn lemma_scannable_row(a: Seq<TokenView>, b: Seq<TokenView>)
    requires
        all_scannable(a),
        all_scannable(b),
    ensures
        all_scannable(a + b),
{
    reveal(all_scannable);
    assert forall|k: int| 0 <= k < (a + b).len() implies scannable(#[trigger] (a + b)[k]) by {
        if k < a.len() {
            assert((a + b)[k] == a[k]);
        } else {
            assert((a + b)[k] == b[k - a.len()]);
        }
    }
}

/// No tokens are scanned tokens.
pub proof fn lemma_scannable_none()
    ensures
        all_scannable(Seq::<TokenView>::empty()),
{
    reveal(all_scannable);
}

/// A token of a kind that is written in one way is a scanned token.
pub proof fn lemma_scannable_fixed(kind: TokenType)
    requires
        fixed_lexeme(kind) is Some,
    ensures
        all_scannable(seq![fixed_token(kind)]),
        scannable(fixed_token(kind)),
{
    reveal(all_scannable);
    reveal(scannable);
    law_fixed_lexemes_are_tokens(kind);
}

/// A scanned token without its place is a scanned token.
pub proof fn lemma_scannable_placeless(t: TokenView)
    requires
        scannable(t),
    ensures
        scannable(placeless(t)),
        all_scannable(seq![placeless(t)]),
{
    reveal(all_scannable);
    reveal(scannable);
}

/// The tokens before the end token of a scan are scanned tokens.
pub proof fn lemma_scannable_segment(ts: Seq<TokenView>, a: int, b: int)
    requires
        well_scanned(ts),
        0 <= a <= b < ts.len(),
    ensures
        all_scannable(segment(ts, a, b)),
{
    reveal(all_scannable);
    reveal(segment);
    assert forall|k: int| 0 <= k < segment(ts, a, b).len() implies scannable(
        #[trigger] segment(ts, a, b)[k],
    ) by {
        lemma_well_scanned_at(ts, a + k);
        lemma_scannable_placeless(ts[a + k]);
    }
}

// ---------------------------------------------------------------------------
// Tokens that stand written in a sequence
// ---------------------------------------------------------------------------

/// Whether `ts2` holds at `q + k` the token `tokens[k]`, but for its place.
pub open spec fn token_stands(ts2: Seq<TokenView>, q: int, tokens: Seq<TokenView>, k: int) -> bool {
    placeless(ts2[q + k]) == placeless(tokens[k])
}

/// Whether `ts2` holds from `q` on the tokens `tokens`, but for their
/// places, and at least one token more.
#[verifier::opaque]
pub open spec fn written(ts2: Seq<TokenView>, q: int, tokens: Seq<TokenView>) -> bool {
    &&& 0 <= q
    &&& q + tokens.len() < ts2.len()
    &&& forall|k: int| 0 <= k < tokens.len() ==> #[trigger] token_stands(ts2, q, tokens, k)
}

/// Where a row of tokens stands written, both of its parts do.
pub proof fn lemma_written_row(ts2: Seq<TokenView>, q: int, a: Seq<TokenView>, b: Seq<TokenView>)
    requires
        written(ts2, q, a + b),
    ensures
        written(ts2, q, a),
        written(ts2, q + a.len(), b),
{
    reveal(written);
    assert forall|k: int| 0 <= k < a.len() implies #[trigger] token_stands(ts2, q, a, k) by {
        assert(token_stands(ts2, q, a + b, k));
        assert((a + b)[k] == a[k]);
    }
    assert forall|k: int| 0 <= k < b.len() implies #[trigger] token_stands(
        ts2,
        q + a.len(),
        b,
        k,
    ) by {
        assert(token_stands(ts2, q, a + b, a.len() + k));
        assert((a + b)[a.len() + k] == b[k]);
    }
}

/// What [`written`] says of the token at `k`, and of the token behind the
/// last.
pub proof fn lemma_written_at(ts2: Seq<TokenView>, q: int, tokens: Seq<TokenView>, k: int)
    requires
        written(ts2, q, tokens),
        0 <= k <= tokens.len(),
    ensures
        0 <= q + k < ts2.len(),
        k < tokens.len() ==> placeless(ts2[q + k]) == placeless(tokens[k]) && ts2[q
            + k].token_type == tokens[k].token_type,
{
    reveal(written);
    if k < tokens.len() {
        assert(token_stands(ts2, q, tokens, k));
    }
}

/// Where the tokens of a segment of `ts` stand written, the two sequences
/// agree.
pub proof fn lemma_written_segment(
    ts: Seq<TokenView>,
    a: int,
    b: int,
    ts2: Seq<TokenView>,
    q: int,
)
    requires
        a <= b,
        written(ts2, q, segment(ts, a, b)),
    ensures
        agree(ts, a, ts2, q, b - a),
{
    reveal(written);
    reveal(agree);
    reveal(segment);
    assert forall|k: int| 0 <= k < b - a implies #[trigger] same_token(ts, a, ts2, q, k) by {
        assert(token_stands(ts2, q, segment(ts, a, b), k));
    }
}

// ---------------------------------------------------------------------------
// The tokens that write each kind of statement
// ---------------------------------------------------------------------------

/// The token `;`.
pub open spec fn semicolon() -> Seq<TokenView> {
    seq![fixed_token(TokenType::Semicolon)]
}

/// The tokens that write an optional expression.
pub open spec fn optional_tokens(e: Option<ExpressionView>) -> Seq<TokenView> {
    match e {
        Some(e) => expression_tokens(e),
        None => Seq::empty(),
    }
}

/// How each kind of statement is written.
pub proof fn lemma_statement_is_written(s: StatementView)
    ensures
        s matches StatementView::Expression(e) ==> statement_tokens(s) == expression_tokens(e)
            + semicolon(),
        s matches StatementView::Print(e) ==> statement_tokens(s) == seq![
            fixed_token(TokenType::Print),
        ] + expression_tokens(e) + semicolon(),
        s matches StatementView::Variable { name, initializer: Some(e) } ==> statement_tokens(s)
            == seq![fixed_token(TokenType::Variable), placeless(name)] + (seq![
            fixed_token(TokenType::Equal),
        ] + expression_tokens(e)) + semicolon(),
        s matches StatementView::Variable { name, initializer: None } ==> statement_tokens(s)
            == seq![fixed_token(TokenType::Variable), placeless(name)] + semicolon(),
        s matches StatementView::Block(items) ==> statement_tokens(s) == seq![
            fixed_token(TokenType::LeftBrace),
        ] + statements_tokens(items, 0) + seq![fixed_token(TokenType::RightBrace)],
        s matches StatementView::If { condition, then_branch, else_branch: Some(e) }
            ==> statement_tokens(s) == seq![
            fixed_token(TokenType::If),
            fixed_token(TokenType::LeftParen),
        ] + expression_tokens(condition) + seq![fixed_token(TokenType::RightParen)]
            + statement_tokens(*then_branch) + (seq![fixed_token(TokenType::Else)]
            + statement_tokens(*e)),
        s matches StatementView::If { condition, then_branch, else_branch: None }
            ==> statement_tokens(s) == seq![
            fixed_token(TokenType::If),
            fixed_token(TokenType::LeftParen),
        ] + expression_tokens(condition) + seq![fixed_token(TokenType::RightParen)]
            + statement_tokens(*then_branch),
        s matches StatementView::While { condition, body } ==> statement_tokens(s) == seq![
            fixed_token(TokenType::While),
            fixed_token(TokenType::LeftParen),
        ] + expression_tokens(condition) + seq![fixed_token(TokenType::RightParen)]
            + statement_tokens(*body),
        s matches StatementView::Function { name, parameters, body } ==> statement_tokens(s)
            == seq![
            fixed_token(TokenType::Function),
            placeless(name),
            fixed_token(TokenType::LeftParen),
        ] + parameter_tokens(parameters, 0) + seq![fixed_token(TokenType::RightParen)]
            + statement_tokens(*body),
        s matches StatementView::Return { value, .. } ==> statement_tokens(s) == seq![
            fixed_token(TokenType::Return),
        ] + optional_tokens(value) + semicolon(),
        s is Break ==> statement_tokens(s) == seq![fixed_token(TokenType::Break)] + semicolon(),
        s is Continue ==> statement_tokens(s) == seq![fixed_token(TokenType::Continue)]
            + semicolon(),
{
    reveal_with_fuel(statement_tokens, 1);
    reveal_with_fuel(statements_tokens, 1);
    match s {
        StatementView::Variable { name, initializer } => {
            if initializer is None {
                assert(statement_tokens(s) =~= seq![
                    fixed_token(TokenType::Variable),
                    placeless(name),
                ] + semicolon());
            }
        },
        StatementView::If { condition, then_branch, else_branch } => {
            if else_branch is None {
                assert(statement_tokens(s) =~= seq![
                    fixed_token(TokenType::If),
                    fixed_token(TokenType::LeftParen),
                ] + expression_tokens(condition) + seq![fixed_token(TokenType::RightParen)]
                    + statement_tokens(*then_branch));
            }
        },
        StatementView::Break { .. } => {
            assert(statement_tokens(s) =~= seq![fixed_token(TokenType::Break)] + semicolon());
        },
        StatementView::Continue { .. } => {
            assert(statement_tokens(s) =~= seq![fixed_token(TokenType::Continue)] + semicolon());
        },
        _ => {},
    }
}

/// How a row of statements is written.
pub proof fn lemma_statements_are_written(list: Seq<StatementView>, i: int)
    ensures
        0 <= i < list.len() ==> statements_tokens(list, i) == statement_tokens(list[i])
            + statements_tokens(list, i + 1),
        !(0 <= i < list.len()) ==> statements_tokens(list, i) == Seq::<TokenView>::empty(),
{
    reveal_with_fuel(statement_tokens, 1);
    reveal_with_fuel(statements_tokens, 1);
}

/// How a row of parameters is written.
pub proof fn lemma_parameters_are_written(list: Seq<TokenView>, i: int)
    ensures
        0 <= i < list.len() && i + 1 < list.len() ==> parameter_tokens(list, i) == seq![
            placeless(list[i]),
            fixed_token(TokenType::Comma),
        ] + parameter_tokens(list, i + 1),
        0 <= i < list.len() && i + 1 >= list.len() ==> parameter_tokens(list, i) == seq![
            placeless(list[i]),
        ],
        !(0 <= i < list.len()) ==> parameter_tokens(list, i) == Seq::<TokenView>::empty(),
{
    reveal_with_fuel(parameter_tokens, 1);
}


// ---------------------------------------------------------------------------
// How statements begin and end
// ---------------------------------------------------------------------------

/// Whether the statement `s` ends with an `if` that has no `else`: an
/// `else` behind it would belong to that `if`.
pub open spec fn open_ended(s: StatementView) -> bool
    decreases s,
{
    match s {
        StatementView::If { else_branch: None, .. } => true,
        StatementView::If { else_branch: Some(e), .. } => open_ended(*e),
        StatementView::While { body, .. } => open_ended(*body),
        _ => false,
    }
}

/// The kinds of token that may begin a declaration: no `}`, no `else`, no
/// end token.
pub open spec fn begins_declaration(kind: TokenType) -> bool {
    kind != TokenType::RightBrace && kind != TokenType::Eof && kind != TokenType::Else
}

/// The kinds of token that may begin a statement: those of a declaration
/// but `let` and `fn`.
pub open spec fn begins_statement(kind: TokenType) -> bool {
    begins_declaration(kind) && kind != TokenType::Variable && kind != TokenType::Function
}

/// Whether the statement that `r` found is well written: it was read from
/// at least one token, before the end token; its tokens are tokens as the
/// scanner makes them; and where it ends with an open `if`, no `else`
/// follows it.
pub open spec fn well_written(ts: Seq<TokenView>, pos: int, r: Parsed<StatementView>) -> bool {
    &&& pos < r.pos < ts.len()
    &&& all_scannable(statement_tokens(r.value->0))
    &&& statement_tokens(r.value->0).len() > 0
    &&& open_ended(r.value->0) ==> !check(ts, r.pos, TokenType::Else)
}

/// The first token of a row is the first token of its first part.
pub proof fn lemma_first_of_row(a: Seq<TokenView>, b: Seq<TokenView>)
    requires
        a.len() > 0,
    ensures
        (a + b).len() > 0,
        (a + b)[0] == a[0],
{
}

/// An expression that parses: where it began and ended, and that its
/// tokens are those it was read from, tokens as the scanner makes them.
pub proof fn lemma_expression_sound(ts: Seq<TokenView>, pos: int, errs: Seq<ErrorView>)
    requires
        well_scanned(ts),
        0 <= pos < ts.len(),
        went_well(expression_at(ts, pos, errs)),
    ensures
        errs.len() == 0,
        pos < expression_at(ts, pos, errs).pos < ts.len(),
        starts_expression(ts[pos].token_type),
        expression_tokens(expression_at(ts, pos, errs).value->0) == segment(
            ts,
            pos,
            expression_at(ts, pos, errs).pos,
        ),
        all_scannable(expression_tokens(expression_at(ts, pos, errs).value->0)),
        expression_tokens(expression_at(ts, pos, errs).value->0).len() == expression_at(
            ts,
            pos,
            errs,
        ).pos - pos,
        expression_tokens(expression_at(ts, pos, errs).value->0)[0].token_type
            == ts[pos].token_type,
{
    reveal(expression_at);
    lemma_expression_tokens(ts, pos, errs);
    let end = expression_at(ts, pos, errs).pos;
    lemma_scannable_segment(ts, pos, end);
    crate::lang::laws::expressions::lemma_segment_parts(ts, pos, pos + 1, end);
    crate::lang::laws::expressions::lemma_segment_one(ts, pos);
}

/// An expression statement that parses is well written and begins as a
/// statement may.
pub proof fn lemma_expression_statement_sound(ts: Seq<TokenView>, pos: int, errs: Seq<ErrorView>)
    requires
        well_scanned(ts),
        0 <= pos < ts.len(),
        went_well(expression_statement_at(ts, pos, errs)),
    ensures
        errs.len() == 0,
        well_written(ts, pos, expression_statement_at(ts, pos, errs)),
        begins_statement(statement_tokens(expression_statement_at(ts, pos, errs).value->0)[0].token_type),
        starts_expression(ts[pos].token_type),
        expression_statement_at(ts, pos, errs).value->0 is Expression,
{
    lemma_expression_statement_step(ts, pos, errs);
    let e = expression_at(ts, pos, errs);
    lemma_well_scanned_at(ts, pos);
    lemma_expression_moves(ts, pos, errs);
    lemma_expression_sound(ts, pos, errs);
    lemma_well_scanned_at(ts, e.pos);
    lemma_statement_is_written(StatementView::Expression(e.value->0));
    lemma_scannable_fixed(TokenType::Semicolon);
    lemma_scannable_row(expression_tokens(e.value->0), semicolon());
    lemma_first_of_row(expression_tokens(e.value->0), semicolon());
}

/// A variable declaration that parses, behind its `let`, is well written.
pub proof fn lemma_variable_declaration_sound(ts: Seq<TokenView>, pos: int, errs: Seq<ErrorView>)
    requires
        well_scanned(ts),
        0 <= pos < ts.len(),
        went_well(variable_declaration_at(ts, pos, errs)),
    ensures
        errs.len() == 0,
        well_written(ts, pos, variable_declaration_at(ts, pos, errs)),
        statement_tokens(variable_declaration_at(ts, pos, errs).value->0)[0].token_type
            == TokenType::Variable,
        variable_declaration_at(ts, pos, errs).value->0 is Variable,
{
    lemma_variable_declaration_step(ts, pos, errs);
    let r = variable_declaration_at(ts, pos, errs);
    lemma_well_scanned_at(ts, pos);
    lemma_well_scanned_at(ts, pos + 1);
    lemma_statement_is_written(r.value->0);
    lemma_scannable_fixed(TokenType::Semicolon);
    lemma_scannable_fixed(TokenType::Variable);
    lemma_scannable_fixed(TokenType::Equal);
    lemma_scannable_placeless(ts[pos]);
    let head = seq![fixed_token(TokenType::Variable), placeless(ts[pos])];
    assert(head =~= seq![fixed_token(TokenType::Variable)] + seq![placeless(ts[pos])]);
    lemma_scannable_row(seq![fixed_token(TokenType::Variable)], seq![placeless(ts[pos])]);
    if check(ts, pos + 1, TokenType::Equal) {
        let e = expression_at(ts, pos + 2, errs);
        lemma_expression_moves(ts, pos + 2, errs);
        lemma_expression_sound(ts, pos + 2, errs);
        lemma_well_scanned_at(ts, e.pos);
        let value = seq![fixed_token(TokenType::Equal)] + expression_tokens(e.value->0);
        lemma_scannable_row(seq![fixed_token(TokenType::Equal)], expression_tokens(e.value->0));
        lemma_scannable_row(head, value);
        lemma_scannable_row(head + value, semicolon());
        lemma_first_of_row(head, value);
        lemma_first_of_row(head + value, semicolon());
    } else {
        lemma_scannable_row(head, semicolon());
        lemma_first_of_row(head, semicolon());
    }
}

/// The parameters of `list` from index `i` on are scanned tokens if those
/// of the list are.
pub proof fn lemma_parameters_scannable(list: Seq<TokenView>, i: int)
    requires
        0 <= i <= list.len(),
        forall|k: int| 0 <= k < list.len() ==> scannable(#[trigger] list[k]),
    ensures
        all_scannable(parameter_tokens(list, i)),
    decreases list.len() - i,
{
    lemma_parameters_are_written(list, i);
    if i < list.len() {
        lemma_scannable_placeless(list[i]);
        if i + 1 < list.len() {
            lemma_parameters_scannable(list, i + 1);
            lemma_scannable_fixed(TokenType::Comma);
            let head = seq![placeless(list[i]), fixed_token(TokenType::Comma)];
            assert(head =~= seq![placeless(list[i])] + seq![fixed_token(TokenType::Comma)]);
            lemma_scannable_row(seq![placeless(list[i])], seq![fixed_token(TokenType::Comma)]);
            lemma_scannable_row(head, parameter_tokens(list, i + 1));
        }
    } else {
        lemma_scannable_none();
    }
}

/// A parameter list that parses: it began with no diagnostic and with
/// fewer parameters than the limit, ended before the end token, and found
/// a longer list that begins with `list` and goes on with scanned tokens.
pub proof fn lemma_parameter_list_sound(
    ts: Seq<TokenView>,
    list: Seq<TokenView>,
    pos: int,
    errs: Seq<ErrorView>,
)
    requires
        well_scanned(ts),
        0 <= pos < ts.len(),
        went_well(parameter_list_at(ts, list, pos, errs)),
    ensures
        errs.len() == 0,
        list.len() < 255,
        pos < parameter_list_at(ts, list, pos, errs).pos < ts.len(),
        parameter_list_at(ts, list, pos, errs).value->0.len() > list.len(),
        parameter_list_at(ts, list, pos, errs).value->0.subrange(0, list.len() as int) == list,
        forall|k: int|
            list.len() <= k < parameter_list_at(ts, list, pos, errs).value->0.len() ==> scannable(
                #[trigger] parameter_list_at(ts, list, pos, errs).value->0[k],
            ),
    decreases ts.len() - pos,
{
    let r = parameter_list_at(ts, list, pos, errs);
    if list.len() >= 255 {
        lemma_parameter_list_limit(ts, list, pos, errs);
    }
    lemma_parameter_list_step(ts, list, pos, errs);
    lemma_well_scanned_at(ts, pos);
    let full = r.value->0;
    let n = list.len() as int;
    if check(ts, pos + 1, TokenType::Comma) {
        lemma_well_scanned_at(ts, pos + 1);
        lemma_parameter_list_sound(ts, list.push(ts[pos]), pos + 2, errs);
        assert(full.subrange(0, n + 1) == list.push(ts[pos]));
        assert(full.subrange(0, n) =~= list) by {
            assert forall|k: int| 0 <= k < n implies full[k] == list[k] by {
                assert(full.subrange(0, n + 1)[k] == full[k]);
            }
        }
        assert(full[n] == ts[pos]) by {
            assert(full.subrange(0, n + 1)[n] == full[n]);
        }
    } else {
        assert(full.subrange(0, n) =~= list);
    }
}

/// The parameters of a function that parses: where they began and ended,
/// and that each is a scanned token.
pub proof fn lemma_parameters_sound(ts: Seq<TokenView>, pos: int, errs: Seq<ErrorView>)
    requires
        well_scanned(ts),
        0 <= pos < ts.len(),
        went_well(parameters_at(ts, pos, errs)),
    ensures
        errs.len() == 0,
        pos + 1 < parameters_at(ts, pos, errs).pos < ts.len(),
        all_scannable(parameter_tokens(parameters_at(ts, pos, errs).value->0, 0)),
{
    lemma_parameters_step(ts, pos, errs);
    lemma_well_scanned_at(ts, pos);
    lemma_well_scanned_at(ts, pos + 1);
    let r = parameters_at(ts, pos, errs);
    if check(ts, pos + 1, TokenType::RightParen) {
        lemma_parameters_are_written(r.value->0, 0);
        lemma_scannable_none();
    } else {
        let l = parameter_list_at(ts, Seq::empty(), pos + 1, errs);
        lemma_parameter_list_moves(ts, Seq::empty(), pos + 1, errs);
        lemma_parameter_list_sound(ts, Seq::empty(), pos + 1, errs);
        lemma_well_scanned_at(ts, l.pos);
        lemma_parameters_scannable(l.value->0, 0);
    }
}

/// The tokens that write what a `for` loop stands for.
pub open spec fn for_tokens(clauses: ForClauses, body: StatementView) -> Seq<TokenView> {
    seq![fixed_token(TokenType::LeftBrace)] + (match clauses.initializer {
        Some(i) => statement_tokens(i),
        None => Seq::empty(),
    }) + (seq![fixed_token(TokenType::While), fixed_token(TokenType::LeftParen)] + (match clauses.condition {
        Some(c) => expression_tokens(c),
        None => seq![fixed_token(TokenType::True)],
    }) + seq![fixed_token(TokenType::RightParen)] + (match clauses.increment {
        Some(i) => seq![fixed_token(TokenType::LeftBrace)] + statement_tokens(body) + (
        expression_tokens(i) + semicolon()) + seq![fixed_token(TokenType::RightBrace)],
        None => statement_tokens(body),
    })) + seq![fixed_token(TokenType::RightBrace)]
}

/// The loop that a `for` loop stands for, and its body.
pub open spec fn stepped_body(clauses: ForClauses, body: StatementView) -> StatementView {
    match clauses.increment {
        Some(i) => StatementView::Block(seq![body, StatementView::Expression(i)]),
        None => body,
    }
}

/// The `while` loop that a `for` loop stands for.
pub open spec fn repeated(clauses: ForClauses, body: StatementView) -> StatementView {
    StatementView::While {
        condition: match clauses.condition {
            Some(c) => c,
            None => ExpressionView::Literal(LiteralView::Boolean(true)),
        },
        body: Box::new(stepped_body(clauses, body)),
    }
}

/// What a `for` loop stands for is written by [`for_tokens`].
pub proof fn lemma_for_is_written(clauses: ForClauses, body: StatementView)
    ensures
        statement_tokens(desugared_for(clauses, body)) == for_tokens(clauses, body),
        desugared_for(clauses, body) == StatementView::Block(
            match clauses.initializer {
                Some(i) => seq![i, repeated(clauses, body)],
                None => seq![repeated(clauses, body)],
            },
        ),
        statement_tokens(repeated(clauses, body)) == seq![
            fixed_token(TokenType::While),
            fixed_token(TokenType::LeftParen),
        ] + (match clauses.condition {
            Some(c) => expression_tokens(c),
            None => seq![fixed_token(TokenType::True)],
        }) + seq![fixed_token(TokenType::RightParen)] + statement_tokens(
            stepped_body(clauses, body),
        ),
        statement_tokens(stepped_body(clauses, body)) == (match clauses.increment {
            Some(i) => seq![fixed_token(TokenType::LeftBrace)] + statement_tokens(body) + (
            expression_tokens(i) + semicolon()) + seq![fixed_token(TokenType::RightBrace)],
            None => statement_tokens(body),
        }),
{
    let stepped = stepped_body(clauses, body);
    let looped = repeated(clauses, body);
    let whole = desugared_for(clauses, body);
    lemma_statement_is_written(stepped);
    lemma_statement_is_written(looped);
    lemma_statement_is_written(whole);
    if clauses.increment is Some {
        let i = clauses.increment->0;
        let items = seq![body, StatementView::Expression(i)];
        lemma_statements_are_written(items, 0);
        lemma_statements_are_written(items, 1);
        lemma_statements_are_written(items, 2);
        lemma_statement_is_written(StatementView::Expression(i));
        assert(statements_tokens(items, 0) =~= statement_tokens(body) + (expression_tokens(i)
            + semicolon()));
    }
    if clauses.condition is None {
        reveal_with_fuel(expression_tokens, 1);
        assert(expression_tokens(ExpressionView::Literal(LiteralView::Boolean(true))) =~= seq![
            fixed_token(TokenType::True),
        ]);
    }
    if clauses.initializer is Some {
        let items = seq![clauses.initializer->0, looped];
        lemma_statements_are_written(items, 0);
        lemma_statements_are_written(items, 1);
        lemma_statements_are_written(items, 2);
        assert(statements_tokens(items, 0) =~= statement_tokens(clauses.initializer->0)
            + statement_tokens(looped));
        assert(statement_tokens(whole) =~= for_tokens(clauses, body));
    } else {
        let items = seq![looped];
        lemma_statements_are_written(items, 0);
        lemma_statements_are_written(items, 1);
        assert(statements_tokens(items, 0) =~= statement_tokens(looped));
        assert(statement_tokens(whole) =~= for_tokens(clauses, body));
    }
}


/// Whether the clauses of a `for` loop are well written: the tokens of
/// each clause are tokens as the scanner makes them, the initializer
/// begins as a declaration may, and the increment as an expression does.
pub open spec fn clauses_well_written(c: ForClauses) -> bool {
    &&& c.initializer matches Some(i) ==> {
        &&& all_scannable(statement_tokens(i))
        &&& statement_tokens(i).len() > 0
        &&& begins_declaration(statement_tokens(i)[0].token_type)
        &&& !open_ended(i)
    }
    &&& c.condition matches Some(e) ==> all_scannable(expression_tokens(e))
    &&& c.increment matches Some(e) ==> {
        &&& all_scannable(expression_tokens(e))
        &&& expression_tokens(e).len() > 0
        &&& starts_expression(expression_tokens(e)[0].token_type)
    }
}

/// The clauses of a `for` loop that parse are well written.
pub proof fn lemma_clauses_sound(ts: Seq<TokenView>, pos: int, errs: Seq<ErrorView>)
    requires
        well_scanned(ts),
        0 <= pos < ts.len(),
        went_well(clauses_at(ts, pos, errs)),
    ensures
        errs.len() == 0,
        pos < clauses_at(ts, pos, errs).pos < ts.len(),
        clauses_well_written(clauses_at(ts, pos, errs).value->0),
{
    lemma_clauses_step(ts, pos, errs);
    lemma_well_scanned_at(ts, pos);
    let i = initializer_at(ts, pos + 1, errs);
    lemma_initializer_step(ts, pos + 1, errs);
    lemma_initializer_moves(ts, pos + 1, errs);
    let c = optional_at(ts, i.pos, i.errors, TokenType::Semicolon);
    lemma_optional_step(ts, i.pos, i.errors, TokenType::Semicolon);
    lemma_optional_moves(ts, i.pos, i.errors, TokenType::Semicolon);
    lemma_well_scanned_at(ts, c.pos);
    let n = optional_at(ts, c.pos + 1, c.errors, TokenType::RightParen);
    lemma_optional_step(ts, c.pos + 1, c.errors, TokenType::RightParen);
    lemma_optional_moves(ts, c.pos + 1, c.errors, TokenType::RightParen);
    lemma_well_scanned_at(ts, n.pos);
    if !check(ts, c.pos + 1, TokenType::RightParen) {
        lemma_expression_sound(ts, c.pos + 1, c.errors);
    }
    if !check(ts, i.pos, TokenType::Semicolon) {
        lemma_expression_sound(ts, i.pos, i.errors);
    }
    if check(ts, pos + 1, TokenType::Semicolon) {
    } else if check(ts, pos + 1, TokenType::Variable) {
        lemma_well_scanned_at(ts, pos + 1);
        lemma_variable_declaration_sound(ts, pos + 2, errs);
        lemma_not_open_ended(i.value->0->0);
    } else {
        lemma_expression_statement_sound(ts, pos + 1, errs);
        lemma_not_open_ended(i.value->0->0);
    }
}

/// Only an `if` and a `while` may end with an open `if`.
pub proof fn lemma_not_open_ended(s: StatementView)
    requires
        !(s is If),
        !(s is While),
    ensures
        !open_ended(s),
{
}

/// A statement that parses is well written and begins as a statement may.
pub proof fn lemma_statement_sound(ts: Seq<TokenView>, pos: int, errs: Seq<ErrorView>)
    requires
        well_scanned(ts),
        0 <= pos < ts.len(),
        went_well(statement_at(ts, pos, errs)),
    ensures
        errs.len() == 0,
        well_written(ts, pos, statement_at(ts, pos, errs)),
        begins_statement(statement_tokens(statement_at(ts, pos, errs).value->0)[0].token_type),
    decreases ts.len() - pos, 9int,
{
    let r = statement_at(ts, pos, errs);
    lemma_statement_step(ts, pos, errs);
    lemma_well_scanned_at(ts, pos);
    lemma_statement_moves(ts, pos, errs);
    lemma_scannable_fixed(TokenType::Semicolon);
    if check(ts, pos, TokenType::Print) {
        lemma_print_step(ts, pos, errs);
        let e = expression_at(ts, pos + 1, errs);
        lemma_expression_moves(ts, pos + 1, errs);
        lemma_expression_sound(ts, pos + 1, errs);
        lemma_well_scanned_at(ts, e.pos);
        lemma_statement_is_written(r.value->0);
        lemma_scannable_fixed(TokenType::Print);
        let head = seq![fixed_token(TokenType::Print)];
        lemma_scannable_row(head, expression_tokens(e.value->0));
        lemma_scannable_row(head + expression_tokens(e.value->0), semicolon());
        lemma_first_of_row(head, expression_tokens(e.value->0));
        lemma_first_of_row(head + expression_tokens(e.value->0), semicolon());
    } else if check(ts, pos, TokenType::Return) {
        lemma_return_step(ts, pos, errs);
        lemma_well_scanned_at(ts, pos + 1);
        lemma_statement_is_written(r.value->0);
        lemma_scannable_fixed(TokenType::Return);
        let head = seq![fixed_token(TokenType::Return)];
        if check(ts, pos + 1, TokenType::Semicolon) {
            lemma_scannable_none();
            lemma_scannable_row(head, Seq::empty());
            lemma_scannable_row(head + Seq::empty(), semicolon());
            lemma_first_of_row(head, Seq::empty());
            lemma_first_of_row(head + Seq::empty(), semicolon());
        } else {
            let e = expression_at(ts, pos + 1, errs);
            lemma_expression_moves(ts, pos + 1, errs);
            lemma_expression_sound(ts, pos + 1, errs);
            lemma_well_scanned_at(ts, e.pos);
            lemma_scannable_row(head, expression_tokens(e.value->0));
            lemma_scannable_row(head + expression_tokens(e.value->0), semicolon());
            lemma_first_of_row(head, expression_tokens(e.value->0));
            lemma_first_of_row(head + expression_tokens(e.value->0), semicolon());
        }
    } else if check(ts, pos, TokenType::If) {
        lemma_if_sound(ts, pos + 1, errs);
    } else if check(ts, pos, TokenType::While) {
        lemma_while_sound(ts, pos + 1, errs);
    } else if check(ts, pos, TokenType::For) {
        lemma_for_sound(ts, pos + 1, errs);
    } else if check(ts, pos, TokenType::Break) || check(ts, pos, TokenType::Continue) {
        lemma_jump_step(ts, pos, errs);
        lemma_well_scanned_at(ts, pos + 1);
        lemma_statement_is_written(r.value->0);
        lemma_scannable_fixed(TokenType::Break);
        lemma_scannable_fixed(TokenType::Continue);
        lemma_scannable_row(seq![fixed_token(TokenType::Break)], semicolon());
        lemma_scannable_row(seq![fixed_token(TokenType::Continue)], semicolon());
    } else if check(ts, pos, TokenType::LeftBrace) {
        lemma_block_sound(ts, pos, errs);
    } else {
        lemma_expression_statement_sound(ts, pos, errs);
    }
}

/// A declaration that parses is well written and begins as a declaration
/// may.
pub proof fn lemma_declaration_sound(ts: Seq<TokenView>, pos: int, errs: Seq<ErrorView>)
    requires
        well_scanned(ts),
        0 <= pos < ts.len(),
        went_well(declaration_at(ts, pos, errs)),
    ensures
        errs.len() == 0,
        well_written(ts, pos, declaration_at(ts, pos, errs)),
        begins_declaration(statement_tokens(declaration_at(ts, pos, errs).value->0)[0].token_type),
    decreases ts.len() - pos, 11int,
{
    lemma_declaration_step(ts, pos, errs);
    lemma_well_scanned_at(ts, pos);
    if check(ts, pos, TokenType::Variable) {
        lemma_variable_declaration_sound(ts, pos + 1, errs);
    } else if check(ts, pos, TokenType::Function) {
        lemma_function_declaration_sound(ts, pos + 1, errs);
    } else {
        lemma_statement_sound(ts, pos, errs);
    }
}

/// A function declaration that parses, behind its `fn`, is well written.
pub proof fn lemma_function_declaration_sound(ts: Seq<TokenView>, pos: int, errs: Seq<ErrorView>)
    requires
        well_scanned(ts),
        0 <= pos < ts.len(),
        went_well(function_declaration_at(ts, pos, errs)),
    ensures
        errs.len() == 0,
        well_written(ts, pos, function_declaration_at(ts, pos, errs)),
        statement_tokens(function_declaration_at(ts, pos, errs).value->0)[0].token_type
            == TokenType::Function,
    decreases ts.len() - pos, 10int,
{
    let r = function_declaration_at(ts, pos, errs);
    lemma_function_declaration_step(ts, pos, errs);
    lemma_well_scanned_at(ts, pos);
    let p = parameters_at(ts, pos + 1, errs);
    let b = block_at(ts, p.pos, p.errors);
    lemma_parameters_moves(ts, pos + 1, errs);
    lemma_block_moves(ts, p.pos, p.errors);
    lemma_block_sound(ts, p.pos, p.errors);
    lemma_parameters_sound(ts, pos + 1, errs);
    lemma_statement_is_written(r.value->0);
    lemma_scannable_fixed(TokenType::Function);
    lemma_scannable_fixed(TokenType::LeftParen);
    lemma_scannable_fixed(TokenType::RightParen);
    lemma_scannable_placeless(ts[pos]);
    let head = seq![
        fixed_token(TokenType::Function),
        placeless(ts[pos]),
        fixed_token(TokenType::LeftParen),
    ];
    assert(head =~= seq![fixed_token(TokenType::Function)] + seq![placeless(ts[pos])] + seq![
        fixed_token(TokenType::LeftParen),
    ]);
    lemma_scannable_row(seq![fixed_token(TokenType::Function)], seq![placeless(ts[pos])]);
    lemma_scannable_row(
        seq![fixed_token(TokenType::Function)] + seq![placeless(ts[pos])],
        seq![fixed_token(TokenType::LeftParen)],
    );
    let parameters = parameter_tokens(p.value->0, 0);
    let close = seq![fixed_token(TokenType::RightParen)];
    let body = statement_tokens(b.value->0);
    lemma_scannable_row(head, parameters);
    lemma_scannable_row(head + parameters, close);
    lemma_scannable_row(head + parameters + close, body);
    lemma_first_of_row(head, parameters);
    lemma_first_of_row(head + parameters, close);
    lemma_first_of_row(head + parameters + close, body);
}

/// A block that parses is well written.
pub proof fn lemma_block_sound(ts: Seq<TokenView>, pos: int, errs: Seq<ErrorView>)
    requires
        well_scanned(ts),
        0 <= pos < ts.len(),
        went_well(block_at(ts, pos, errs)),
    ensures
        errs.len() == 0,
        well_written(ts, pos, block_at(ts, pos, errs)),
        statement_tokens(block_at(ts, pos, errs).value->0)[0].token_type == TokenType::LeftBrace,
        block_at(ts, pos, errs).value->0 is Block,
    decreases ts.len() - pos, 8int,
{
    let r = block_at(ts, pos, errs);
    lemma_block_step(ts, pos, errs);
    lemma_well_scanned_at(ts, pos);
    let i = block_items_at(ts, Seq::empty(), pos + 1, errs);
    lemma_block_items_moves(ts, Seq::empty(), pos + 1, errs);
    lemma_well_scanned_at(ts, i.pos);
    lemma_block_items_sound(ts, Seq::empty(), pos + 1, errs);
    lemma_statement_is_written(r.value->0);
    lemma_scannable_fixed(TokenType::LeftBrace);
    lemma_scannable_fixed(TokenType::RightBrace);
    let open = seq![fixed_token(TokenType::LeftBrace)];
    let items = statements_tokens(i.value->0, 0);
    let close = seq![fixed_token(TokenType::RightBrace)];
    lemma_scannable_row(open, items);
    lemma_scannable_row(open + items, close);
    lemma_first_of_row(open, items);
    lemma_first_of_row(open + items, close);
}

/// The declarations of a block that parse, behind those of `list`: the
/// list that is found begins with `list`, the declarations behind it are
/// well written, and the block ends behind them.
pub proof fn lemma_block_items_sound(
    ts: Seq<TokenView>,
    list: Seq<StatementView>,
    pos: int,
    errs: Seq<ErrorView>,
)
    requires
        well_scanned(ts),
        0 <= pos < ts.len(),
        went_well(block_items_at(ts, list, pos, errs)),
    ensures
        errs.len() == 0,
        pos <= block_items_at(ts, list, pos, errs).pos < ts.len(),
        block_ends(ts, block_items_at(ts, list, pos, errs).pos),
        block_items_at(ts, list, pos, errs).value->0.len() >= list.len(),
        block_items_at(ts, list, pos, errs).value->0.subrange(0, list.len() as int) == list,
        all_scannable(
            statements_tokens(block_items_at(ts, list, pos, errs).value->0, list.len() as int),
        ),
        statements_tokens(block_items_at(ts, list, pos, errs).value->0, list.len() as int).len()
            > 0 ==> begins_declaration(
            statements_tokens(
                block_items_at(ts, list, pos, errs).value->0,
                list.len() as int,
            )[0].token_type,
        ),
    decreases ts.len() - pos, 12int,
{
    let r = block_items_at(ts, list, pos, errs);
    let full = r.value->0;
    let n = list.len() as int;
    lemma_block_items_step(ts, list, pos, errs);
    lemma_statements_are_written(full, n);
    if block_ends(ts, pos) {
        assert(full.subrange(0, n) =~= list);
        lemma_scannable_none();
    } else {
        let d = declaration_at(ts, pos, errs);
        lemma_well_scanned_at(ts, pos);
        lemma_declaration_moves(ts, pos, errs);
        lemma_block_items_moves(ts, list.push(d.value->0), d.pos, d.errors);
        lemma_block_items_sound(ts, list.push(d.value->0), d.pos, d.errors);
        lemma_declaration_sound(ts, pos, errs);
        assert(full.subrange(0, n + 1) == list.push(d.value->0));
        assert(full.subrange(0, n) =~= list) by {
            assert forall|k: int| 0 <= k < n implies full[k] == list[k] by {
                assert(full.subrange(0, n + 1)[k] == full[k]);
            }
        }
        assert(full[n] == d.value->0) by {
            assert(full.subrange(0, n + 1)[n] == full[n]);
        }
        lemma_scannable_row(statement_tokens(full[n]), statements_tokens(full, n + 1));
        lemma_first_of_row(statement_tokens(full[n]), statements_tokens(full, n + 1));
    }
}

/// An `if` statement that parses, behind its `if`, is well written.
pub proof fn lemma_if_sound(ts: Seq<TokenView>, pos: int, errs: Seq<ErrorView>)
    requires
        well_scanned(ts),
        0 <= pos < ts.len(),
        went_well(if_at(ts, pos, errs)),
    ensures
        errs.len() == 0,
        well_written(ts, pos, if_at(ts, pos, errs)),
        statement_tokens(if_at(ts, pos, errs).value->0)[0].token_type == TokenType::If,
    decreases ts.len() - pos, 7int,
{
    let r = if_at(ts, pos, errs);
    lemma_if_step(ts, pos, errs);
    lemma_well_scanned_at(ts, pos);
    let c = expression_at(ts, pos + 1, errs);
    let t = statement_at(ts, c.pos + 1, c.errors);
    let e = statement_at(ts, t.pos + 1, t.errors);
    lemma_expression_moves(ts, pos + 1, errs);
    lemma_well_scanned_at(ts, c.pos);
    lemma_statement_moves(ts, c.pos + 1, c.errors);
    lemma_statement_is_written(r.value->0);
    lemma_scannable_fixed(TokenType::If);
    lemma_scannable_fixed(TokenType::LeftParen);
    lemma_scannable_fixed(TokenType::RightParen);
    lemma_scannable_fixed(TokenType::Else);
    let head = seq![fixed_token(TokenType::If), fixed_token(TokenType::LeftParen)];
    assert(head =~= seq![fixed_token(TokenType::If)] + seq![fixed_token(TokenType::LeftParen)]);
    lemma_scannable_row(seq![fixed_token(TokenType::If)], seq![fixed_token(TokenType::LeftParen)]);
    let condition = expression_tokens(c.value->0);
    let close = seq![fixed_token(TokenType::RightParen)];
    let then_tokens = statement_tokens(t.value->0);
    if check(ts, t.pos, TokenType::Else) {
        lemma_well_scanned_at(ts, t.pos);
        lemma_statement_moves(ts, t.pos + 1, t.errors);
        lemma_statement_sound(ts, t.pos + 1, t.errors);
        lemma_statement_sound(ts, c.pos + 1, c.errors);
        lemma_expression_sound(ts, pos + 1, errs);
        let else_tokens = seq![fixed_token(TokenType::Else)] + statement_tokens(e.value->0);
        lemma_scannable_row(seq![fixed_token(TokenType::Else)], statement_tokens(e.value->0));
        lemma_scannable_row(head, condition);
        lemma_scannable_row(head + condition, close);
        lemma_scannable_row(head + condition + close, then_tokens);
        lemma_scannable_row(head + condition + close + then_tokens, else_tokens);
        lemma_first_of_row(head, condition);
        lemma_first_of_row(head + condition, close);
        lemma_first_of_row(head + condition + close, then_tokens);
        lemma_first_of_row(head + condition + close + then_tokens, else_tokens);
    } else {
        lemma_statement_sound(ts, c.pos + 1, c.errors);
        lemma_expression_sound(ts, pos + 1, errs);
        lemma_scannable_row(head, condition);
        lemma_scannable_row(head + condition, close);
        lemma_scannable_row(head + condition + close, then_tokens);
        lemma_first_of_row(head, condition);
        lemma_first_of_row(head + condition, close);
        lemma_first_of_row(head + condition + close, then_tokens);
    }
}

/// A `while` statement that parses, behind its `while`, is well written.
pub proof fn lemma_while_sound(ts: Seq<TokenView>, pos: int, errs: Seq<ErrorView>)
    requires
        well_scanned(ts),
        0 <= pos < ts.len(),
        went_well(while_at(ts, pos, errs)),
    ensures
        errs.len() == 0,
        well_written(ts, pos, while_at(ts, pos, errs)),
        statement_tokens(while_at(ts, pos, errs).value->0)[0].token_type == TokenType::While,
    decreases ts.len() - pos, 7int,
{
    let r = while_at(ts, pos, errs);
    lemma_while_step(ts, pos, errs);
    lemma_well_scanned_at(ts, pos);
    let c = expression_at(ts, pos + 1, errs);
    let b = statement_at(ts, c.pos + 1, c.errors);
    lemma_expression_moves(ts, pos + 1, errs);
    lemma_well_scanned_at(ts, c.pos);
    lemma_statement_moves(ts, c.pos + 1, c.errors);
    lemma_statement_sound(ts, c.pos + 1, c.errors);
    lemma_expression_sound(ts, pos + 1, errs);
    lemma_statement_is_written(r.value->0);
    lemma_scannable_fixed(TokenType::While);
    lemma_scannable_fixed(TokenType::LeftParen);
    lemma_scannable_fixed(TokenType::RightParen);
    let head = seq![fixed_token(TokenType::While), fixed_token(TokenType::LeftParen)];
    assert(head =~= seq![fixed_token(TokenType::While)] + seq![fixed_token(TokenType::LeftParen)]);
    lemma_scannable_row(
        seq![fixed_token(TokenType::While)],
        seq![fixed_token(TokenType::LeftParen)],
    );
    let condition = expression_tokens(c.value->0);
    let close = seq![fixed_token(TokenType::RightParen)];
    let body = statement_tokens(b.value->0);
    lemma_scannable_row(head, condition);
    lemma_scannable_row(head + condition, close);
    lemma_scannable_row(head + condition + close, body);
    lemma_first_of_row(head, condition);
    lemma_first_of_row(head + condition, close);
    lemma_first_of_row(head + condition + close, body);
}

/// What a `for` statement that parses stands for is well written.
pub proof fn lemma_for_sound(ts: Seq<TokenView>, pos: int, errs: Seq<ErrorView>)
    requires
        well_scanned(ts),
        0 <= pos < ts.len(),
        went_well(for_at(ts, pos, errs)),
    ensures
        errs.len() == 0,
        well_written(ts, pos, for_at(ts, pos, errs)),
        statement_tokens(for_at(ts, pos, errs).value->0)[0].token_type == TokenType::LeftBrace,
        !open_ended(for_at(ts, pos, errs).value->0),
    decreases ts.len() - pos, 7int,
{
    let r = for_at(ts, pos, errs);
    lemma_for_step(ts, pos, errs);
    let c = clauses_at(ts, pos, errs);
    let b = statement_at(ts, c.pos, c.errors);
    lemma_well_scanned_at(ts, pos);
    lemma_clauses_moves(ts, pos, errs);
    lemma_statement_moves(ts, c.pos, c.errors);
    lemma_statement_sound(ts, c.pos, c.errors);
    lemma_clauses_sound(ts, pos, errs);
    lemma_for_is_written(c.value->0, b.value->0);
    lemma_for_scannable(c.value->0, b.value->0);
    lemma_not_open_ended(r.value->0);
}

/// The tokens of what a `for` loop stands for are scanned tokens if those
/// of its clauses and of its body are.
pub proof fn lemma_for_scannable(c: ForClauses, b: StatementView)
    requires
        clauses_well_written(c),
        all_scannable(statement_tokens(b)),
    ensures
        all_scannable(for_tokens(c, b)),
        for_tokens(c, b).len() > 0,
        for_tokens(c, b)[0].token_type == TokenType::LeftBrace,
{
    lemma_scannable_fixed(TokenType::LeftBrace);
    lemma_scannable_fixed(TokenType::RightBrace);
    lemma_scannable_fixed(TokenType::While);
    lemma_scannable_fixed(TokenType::LeftParen);
    lemma_scannable_fixed(TokenType::RightParen);
    lemma_scannable_fixed(TokenType::True);
    lemma_scannable_fixed(TokenType::Semicolon);
    lemma_scannable_none();
    let open = seq![fixed_token(TokenType::LeftBrace)];
    let close = seq![fixed_token(TokenType::RightBrace)];
    let initializer = match c.initializer {
        Some(i) => statement_tokens(i),
        None => Seq::empty(),
    };
    let head = seq![fixed_token(TokenType::While), fixed_token(TokenType::LeftParen)];
    assert(head =~= seq![fixed_token(TokenType::While)] + seq![fixed_token(TokenType::LeftParen)]);
    lemma_scannable_row(
        seq![fixed_token(TokenType::While)],
        seq![fixed_token(TokenType::LeftParen)],
    );
    let condition = match c.condition {
        Some(e) => expression_tokens(e),
        None => seq![fixed_token(TokenType::True)],
    };
    let paren = seq![fixed_token(TokenType::RightParen)];
    let stepped = match c.increment {
        Some(i) => open + statement_tokens(b) + (expression_tokens(i) + semicolon()) + close,
        None => statement_tokens(b),
    };
    if c.increment is Some {
        let i = c.increment->0;
        lemma_scannable_row(expression_tokens(i), semicolon());
        lemma_scannable_row(open, statement_tokens(b));
        lemma_scannable_row(open + statement_tokens(b), expression_tokens(i) + semicolon());
        lemma_scannable_row(
            open + statement_tokens(b) + (expression_tokens(i) + semicolon()),
            close,
        );
    }
    lemma_scannable_row(head, condition);
    lemma_scannable_row(head + condition, paren);
    lemma_scannable_row(head + condition + paren, stepped);
    let looped = head + condition + paren + stepped;
    lemma_scannable_row(open, initializer);
    lemma_scannable_row(open + initializer, looped);
    lemma_scannable_row(open + initializer + looped, close);
    lemma_first_of_row(open, initializer);
    lemma_first_of_row(open + initializer, looped);
    lemma_first_of_row(open + initializer + looped, close);
}

/// The declarations of a program that parse, behind those of `list`: the
/// list that is found begins with `list`, the declarations behind it are
/// well written, and the tokens end behind them.
pub proof fn lemma_program_sound(
    ts: Seq<TokenView>,
    list: Seq<StatementView>,
    pos: int,
    errs: Seq<ErrorView>,
)
    requires
        well_scanned(ts),
        0 <= pos < ts.len(),
        went_well(program_at(ts, list, pos, errs)),
    ensures
        errs.len() == 0,
        pos <= program_at(ts, list, pos, errs).pos < ts.len(),
        crate::lang::grammar::at_end(ts, program_at(ts, list, pos, errs).pos),
        program_at(ts, list, pos, errs).value->0.len() >= list.len(),
        program_at(ts, list, pos, errs).value->0.subrange(0, list.len() as int) == list,
        all_scannable(
            statements_tokens(program_at(ts, list, pos, errs).value->0, list.len() as int),
        ),
        statements_tokens(program_at(ts, list, pos, errs).value->0, list.len() as int).len() > 0
            ==> begins_declaration(
            statements_tokens(program_at(ts, list, pos, errs).value->0, list.len() as int)[0].token_type,
        ),
    decreases ts.len() - pos,
{
    let r = program_at(ts, list, pos, errs);
    let full = r.value->0;
    let n = list.len() as int;
    lemma_program_step(ts, list, pos, errs);
    lemma_statements_are_written(full, n);
    if crate::lang::grammar::at_end(ts, pos) || errs.len() > 0 {
        assert(full.subrange(0, n) =~= list);
        lemma_scannable_none();
    } else {
        let d = declaration_at(ts, pos, errs);
        lemma_well_scanned_at(ts, pos);
        lemma_declaration_moves(ts, pos, errs);
        lemma_program_sound(ts, list.push(d.value->0), d.pos, d.errors);
        lemma_declaration_sound(ts, pos, errs);
        assert(full.subrange(0, n + 1) == list.push(d.value->0));
        assert(full.subrange(0, n) =~= list) by {
            assert forall|k: int| 0 <= k < n implies full[k] == list[k] by {
                assert(full.subrange(0, n + 1)[k] == full[k]);
            }
        }
        assert(full[n] == d.value->0) by {
            assert(full.subrange(0, n + 1)[n] == full[n]);
        }
        lemma_scannable_row(statement_tokens(full[n]), statements_tokens(full, n + 1));
        lemma_first_of_row(statement_tokens(full[n]), statements_tokens(full, n + 1));
    }
}

} // verus!
