//! The statement grammar, one step at a time.
//!
//! Each grammar function has a name of its own here, and a lemma that says
//! how it goes on: which tokens it needs, which functions it hands over
//! to, and what it makes of what they find. The proofs about statements
//! rest on these lemmas and look into the grammar nowhere else.

use vstd::prelude::*;
use crate::lang::errors::ErrorView;
use crate::lang::grammar::{
    at_end,
    check,
    desugared_for,
    done,
    parse_block,
    parse_block_items,
    parse_declaration,
    parse_expression_statement,
    parse_for_clauses,
    parse_for_initializer,
    parse_for_statement,
    parse_function_declaration,
    parse_function_parameters,
    parse_if_statement,
    parse_optional_expression,
    parse_parameter_list,
    parse_program,
    parse_statement,
    parse_variable_declaration,
    parse_while_statement,
    ForClauses,
    Parsed,
};
use crate::lang::lexer::{TokenType, TokenView};
use crate::lang::parser::{ExpressionView, StatementView};
use crate::lang::laws::reading::expression_at;

verus! {

// ---------------------------------------------------------------------------
// The grammar functions, by name
// ---------------------------------------------------------------------------

/// [`parse_statement`], by name.
#[verifier::opaque]
pub open spec fn statement_at(ts: Seq<TokenView>, pos: int, errs: Seq<ErrorView>) -> Parsed<
    StatementView,
> {
    parse_statement(ts, pos, errs)
}

/// [`parse_declaration`], by name.
#[verifier::opaque]
pub open spec fn declaration_at(ts: Seq<TokenView>, pos: int, errs: Seq<ErrorView>) -> Parsed<
    StatementView,
> {
    parse_declaration(ts, pos, errs)
}

/// [`parse_variable_declaration`], by name.
#[verifier::opaque]
pub open spec fn variable_declaration_at(
    ts: Seq<TokenView>,
    pos: int,
    errs: Seq<ErrorView>,
) -> Parsed<StatementView> {
    parse_variable_declaration(ts, pos, errs)
}

/// [`parse_expression_statement`], by name.
#[verifier::opaque]
pub open spec fn expression_statement_at(
    ts: Seq<TokenView>,
    pos: int,
    errs: Seq<ErrorView>,
) -> Parsed<StatementView> {
    parse_expression_statement(ts, pos, errs)
}

/// [`parse_function_declaration`], by name.
#[verifier::opaque]
pub open spec fn function_declaration_at(
    ts: Seq<TokenView>,
    pos: int,
    errs: Seq<ErrorView>,
) -> Parsed<StatementView> {
    parse_function_declaration(ts, pos, errs)
}

/// [`parse_function_parameters`], by name.
#[verifier::opaque]
pub open spec fn parameters_at(ts: Seq<TokenView>, pos: int, errs: Seq<ErrorView>) -> Parsed<
    Seq<TokenView>,
> {
    parse_function_parameters(ts, pos, errs)
}

/// [`parse_parameter_list`], by name.
#[verifier::opaque]
pub open spec fn parameter_list_at(
    ts: Seq<TokenView>,
    list: Seq<TokenView>,
    pos: int,
    errs: Seq<ErrorView>,
) -> Parsed<Seq<TokenView>> {
    parse_parameter_list(ts, list, pos, errs)
}

/// [`parse_block`], by name.
#[verifier::opaque]
pub open spec fn block_at(ts: Seq<TokenView>, pos: int, errs: Seq<ErrorView>) -> Parsed<
    StatementView,
> {
    parse_block(ts, pos, errs)
}

/// [`parse_block_items`], by name.
#[verifier::opaque]
pub open spec fn block_items_at(
    ts: Seq<TokenView>,
    list: Seq<StatementView>,
    pos: int,
    errs: Seq<ErrorView>,
) -> Parsed<Seq<StatementView>> {
    parse_block_items(ts, list, pos, errs)
}

/// [`parse_if_statement`], by name.
#[verifier::opaque]
pub open spec fn if_at(ts: Seq<TokenView>, pos: int, errs: Seq<ErrorView>) -> Parsed<
    StatementView,
> {
    parse_if_statement(ts, pos, errs)
}

/// [`parse_while_statement`], by name.
#[verifier::opaque]
pub open spec fn while_at(ts: Seq<TokenView>, pos: int, errs: Seq<ErrorView>) -> Parsed<
    StatementView,
> {
    parse_while_statement(ts, pos, errs)
}

/// [`parse_for_statement`], by name.
#[verifier::opaque]
pub open spec fn for_at(ts: Seq<TokenView>, pos: int, errs: Seq<ErrorView>) -> Parsed<
    StatementView,
> {
    parse_for_statement(ts, pos, errs)
}

/// [`parse_for_clauses`], by name.
#[verifier::opaque]
pub open spec fn clauses_at(ts: Seq<TokenView>, pos: int, errs: Seq<ErrorView>) -> Parsed<
    ForClauses,
> {
    parse_for_clauses(ts, pos, errs)
}

/// [`parse_for_initializer`], by name.
#[verifier::opaque]
pub open spec fn initializer_at(ts: Seq<TokenView>, pos: int, errs: Seq<ErrorView>) -> Parsed<
    Option<StatementView>,
> {
    parse_for_initializer(ts, pos, errs)
}

/// [`parse_optional_expression`], by name.
#[verifier::opaque]
pub open spec fn optional_at(
    ts: Seq<TokenView>,
    pos: int,
    errs: Seq<ErrorView>,
    stop: TokenType,
) -> Parsed<Option<ExpressionView>> {
    parse_optional_expression(ts, pos, errs, stop)
}

/// [`parse_program`], by name.
#[verifier::opaque]
pub open spec fn program_at(
    ts: Seq<TokenView>,
    list: Seq<StatementView>,
    pos: int,
    errs: Seq<ErrorView>,
) -> Parsed<Seq<StatementView>> {
    parse_program(ts, list, pos, errs)
}

// ---------------------------------------------------------------------------
// How each function goes on
// ---------------------------------------------------------------------------

/// The name of a function stands for the function.
pub proof fn lemma_program_named(
    ts: Seq<TokenView>,
    list: Seq<StatementView>,
    pos: int,
    errs: Seq<ErrorView>,
)
    ensures
        program_at(ts, list, pos, errs) == parse_program(ts, list, pos, errs),
{
    reveal(program_at);
}

/// expression `;`
pub proof fn lemma_expression_statement_step(ts: Seq<TokenView>, pos: int, errs: Seq<ErrorView>)
    ensures
        ({
            let e = expression_at(ts, pos, errs);
            &&& expression_statement_at(ts, pos, errs).value is Some ==> e.value is Some && check(
                ts,
                e.pos,
                TokenType::Semicolon,
            )
            &&& e.value is Some && check(ts, e.pos, TokenType::Semicolon)
                ==> expression_statement_at(ts, pos, errs) == done(
                StatementView::Expression(e.value->0),
                e.pos + 1,
                e.errors,
            )
        }),
{
    reveal(expression_statement_at);
    reveal(expression_at);
}

/// identifier ( `=` expression )? `;`, after `let`.
pub proof fn lemma_variable_declaration_step(ts: Seq<TokenView>, pos: int, errs: Seq<ErrorView>)
    ensures
        ({
            let e = expression_at(ts, pos + 2, errs);
            let r = variable_declaration_at(ts, pos, errs);
            &&& r.value is Some ==> check(ts, pos, TokenType::Identifier)
            &&& r.value is Some && check(ts, pos + 1, TokenType::Equal) ==> e.value is Some
                && check(ts, e.pos, TokenType::Semicolon)
            &&& r.value is Some && !check(ts, pos + 1, TokenType::Equal) ==> check(
                ts,
                pos + 1,
                TokenType::Semicolon,
            )
            &&& check(ts, pos, TokenType::Identifier) && check(ts, pos + 1, TokenType::Equal)
                && e.value is Some && check(ts, e.pos, TokenType::Semicolon) ==> r == done(
                StatementView::Variable { name: ts[pos], initializer: Some(e.value->0) },
                e.pos + 1,
                e.errors,
            )
            &&& check(ts, pos, TokenType::Identifier) && !check(ts, pos + 1, TokenType::Equal)
                && check(ts, pos + 1, TokenType::Semicolon) ==> r == done(
                StatementView::Variable { name: ts[pos], initializer: None },
                pos + 2,
                errs,
            )
        }),
{
    reveal(variable_declaration_at);
    reveal(expression_at);
}

/// Whether a token stands at `pos` that begins a statement of its own
/// kind: a keyword or `{`.
pub open spec fn keyword_begins(ts: Seq<TokenView>, pos: int) -> bool {
    check(ts, pos, TokenType::Print) || check(ts, pos, TokenType::Return) || check(
        ts,
        pos,
        TokenType::If,
    ) || check(ts, pos, TokenType::While) || check(ts, pos, TokenType::For) || check(
        ts,
        pos,
        TokenType::Break,
    ) || check(ts, pos, TokenType::Continue) || check(ts, pos, TokenType::LeftBrace)
}

/// A statement is told by its first token: what begins with `if`, `while`,
/// `for` or `{` is handed over, and what begins with no keyword is an
/// expression statement.
pub proof fn lemma_statement_step(ts: Seq<TokenView>, pos: int, errs: Seq<ErrorView>)
    ensures
        check(ts, pos, TokenType::If) ==> statement_at(ts, pos, errs) == if_at(ts, pos + 1, errs),
        check(ts, pos, TokenType::While) ==> statement_at(ts, pos, errs) == while_at(
            ts,
            pos + 1,
            errs,
        ),
        check(ts, pos, TokenType::For) ==> statement_at(ts, pos, errs) == for_at(
            ts,
            pos + 1,
            errs,
        ),
        check(ts, pos, TokenType::LeftBrace) ==> statement_at(ts, pos, errs) == block_at(
            ts,
            pos,
            errs,
        ),
        !keyword_begins(ts, pos) ==> statement_at(ts, pos, errs) == expression_statement_at(
            ts,
            pos,
            errs,
        ),
{
    reveal(statement_at);
    reveal(if_at);
    reveal(while_at);
    reveal(for_at);
    reveal(block_at);
    reveal(expression_statement_at);
}

/// `print` expression `;`
pub proof fn lemma_print_step(ts: Seq<TokenView>, pos: int, errs: Seq<ErrorView>)
    requires
        check(ts, pos, TokenType::Print),
    ensures
        ({
            let e = expression_at(ts, pos + 1, errs);
            &&& statement_at(ts, pos, errs).value is Some ==> e.value is Some && check(
                ts,
                e.pos,
                TokenType::Semicolon,
            )
            &&& e.value is Some && check(ts, e.pos, TokenType::Semicolon) ==> statement_at(
                ts,
                pos,
                errs,
            ) == done(StatementView::Print(e.value->0), e.pos + 1, e.errors)
        }),
{
    reveal(statement_at);
    reveal(expression_at);
}

/// `return` expression? `;`
pub proof fn lemma_return_step(ts: Seq<TokenView>, pos: int, errs: Seq<ErrorView>)
    requires
        check(ts, pos, TokenType::Return),
    ensures
        ({
            let e = expression_at(ts, pos + 1, errs);
            let r = statement_at(ts, pos, errs);
            &&& check(ts, pos + 1, TokenType::Semicolon) ==> r == done(
                StatementView::Return { keyword: ts[pos], value: None },
                pos + 2,
                errs,
            )
            &&& !check(ts, pos + 1, TokenType::Semicolon) && r.value is Some ==> e.value is Some
                && check(ts, e.pos, TokenType::Semicolon)
            &&& !check(ts, pos + 1, TokenType::Semicolon) && e.value is Some && check(
                ts,
                e.pos,
                TokenType::Semicolon,
            ) ==> r == done(
                StatementView::Return { keyword: ts[pos], value: Some(e.value->0) },
                e.pos + 1,
                e.errors,
            )
        }),
{
    reveal(statement_at);
    reveal(expression_at);
}

/// `break` `;` and `continue` `;`
pub proof fn lemma_jump_step(ts: Seq<TokenView>, pos: int, errs: Seq<ErrorView>)
    requires
        check(ts, pos, TokenType::Break) || check(ts, pos, TokenType::Continue),
    ensures
        statement_at(ts, pos, errs).value is Some ==> check(ts, pos + 1, TokenType::Semicolon),
        check(ts, pos + 1, TokenType::Semicolon) ==> statement_at(ts, pos, errs) == done(
            if check(ts, pos, TokenType::Break) {
                StatementView::Break { keyword: ts[pos] }
            } else {
                StatementView::Continue { keyword: ts[pos] }
            },
            pos + 2,
            errs,
        ),
{
    reveal(statement_at);
}

/// A declaration is told by its first token: `let`, `fn`, or a statement.
pub proof fn lemma_declaration_step(ts: Seq<TokenView>, pos: int, errs: Seq<ErrorView>)
    ensures
        declaration_at(ts, pos, errs) == if check(ts, pos, TokenType::Variable) {
            variable_declaration_at(ts, pos + 1, errs)
        } else if check(ts, pos, TokenType::Function) {
            function_declaration_at(ts, pos + 1, errs)
        } else {
            statement_at(ts, pos, errs)
        },
{
    reveal(declaration_at);
    reveal(variable_declaration_at);
    reveal(function_declaration_at);
    reveal(statement_at);
}

/// identifier parameters block, after `fn`.
pub proof fn lemma_function_declaration_step(ts: Seq<TokenView>, pos: int, errs: Seq<ErrorView>)
    ensures
        ({
            let p = parameters_at(ts, pos + 1, errs);
            let b = block_at(ts, p.pos, p.errors);
            let r = function_declaration_at(ts, pos, errs);
            &&& r.value is Some ==> {
                &&& check(ts, pos, TokenType::Identifier)
                &&& p.value is Some
                &&& pos + 1 <= p.pos <= ts.len()
                &&& b.value is Some
            }
            &&& check(ts, pos, TokenType::Identifier) && p.value is Some && pos + 1 <= p.pos
                <= ts.len() && b.value is Some ==> r == done(
                StatementView::Function {
                    name: ts[pos],
                    parameters: p.value->0,
                    body: Box::new(b.value->0),
                },
                b.pos,
                b.errors,
            )
        }),
{
    reveal(function_declaration_at);
    reveal(parameters_at);
    reveal(block_at);
}

/// `(` ( identifier ( `,` identifier )* )? `)`
pub proof fn lemma_parameters_step(ts: Seq<TokenView>, pos: int, errs: Seq<ErrorView>)
    ensures
        ({
            let l = parameter_list_at(ts, Seq::empty(), pos + 1, errs);
            let r = parameters_at(ts, pos, errs);
            &&& r.value is Some ==> check(ts, pos, TokenType::LeftParen)
            &&& check(ts, pos, TokenType::LeftParen) && check(ts, pos + 1, TokenType::RightParen)
                ==> r == done(Seq::<TokenView>::empty(), pos + 2, errs)
            &&& r.value is Some && !check(ts, pos + 1, TokenType::RightParen) ==> l.value is Some
                && check(ts, l.pos, TokenType::RightParen)
            &&& check(ts, pos, TokenType::LeftParen) && !check(ts, pos + 1, TokenType::RightParen)
                && l.value is Some && check(ts, l.pos, TokenType::RightParen) ==> r == done(
                l.value->0,
                l.pos + 1,
                l.errors,
            )
        }),
{
    reveal(parameters_at);
    reveal(parameter_list_at);
}

/// identifier ( `,` identifier )*, behind the parameters of `list`.
pub proof fn lemma_parameter_list_step(
    ts: Seq<TokenView>,
    list: Seq<TokenView>,
    pos: int,
    errs: Seq<ErrorView>,
)
    requires
        list.len() < 255,
    ensures
        ({
            let r = parameter_list_at(ts, list, pos, errs);
            &&& r.value is Some ==> check(ts, pos, TokenType::Identifier)
            &&& check(ts, pos, TokenType::Identifier) ==> r == if check(
                ts,
                pos + 1,
                TokenType::Comma,
            ) {
                parameter_list_at(ts, list.push(ts[pos]), pos + 2, errs)
            } else {
                done(list.push(ts[pos]), pos + 1, errs)
            }
        }),
{
    reveal(parameter_list_at);
}

/// A list of more parameters than the limit does not go well.
pub proof fn lemma_parameter_list_limit(
    ts: Seq<TokenView>,
    list: Seq<TokenView>,
    pos: int,
    errs: Seq<ErrorView>,
)
    requires
        list.len() >= 255,
        pos <= ts.len(),
    ensures
        parameter_list_at(ts, list, pos, errs).value is Some ==> parameter_list_at(
            ts,
            list,
            pos,
            errs,
        ).errors.len() > 0,
    decreases ts.len() - pos,
{
    reveal(parameter_list_at);
    let checked = errs.push(
        crate::lang::grammar::diagnostic(ts[pos], "Cannot have more than 255 parameters."@),
    );
    if check(ts, pos, TokenType::Identifier) {
        if check(ts, pos + 1, TokenType::Comma) {
            lemma_parameter_list_grows(ts, list.push(ts[pos]), pos + 2, checked);
        }
    }
}

/// A list of parameters records no less than was recorded before it.
pub proof fn lemma_parameter_list_grows(
    ts: Seq<TokenView>,
    list: Seq<TokenView>,
    pos: int,
    errs: Seq<ErrorView>,
)
    ensures
        parameter_list_at(ts, list, pos, errs).errors.len() >= errs.len(),
    decreases ts.len() - pos,
{
    reveal(parameter_list_at);
    let checked = crate::lang::grammar::limit_checked(
        errs,
        list.len(),
        255,
        ts[pos],
        "Cannot have more than 255 parameters."@,
    );
    if check(ts, pos, TokenType::Identifier) {
        if check(ts, pos + 1, TokenType::Comma) {
            lemma_parameter_list_grows(ts, list.push(ts[pos]), pos + 2, checked);
        }
    }
}

/// `{` declaration* `}`
pub proof fn lemma_block_step(ts: Seq<TokenView>, pos: int, errs: Seq<ErrorView>)
    ensures
        ({
            let i = block_items_at(ts, Seq::empty(), pos + 1, errs);
            let r = block_at(ts, pos, errs);
            &&& r.value is Some ==> check(ts, pos, TokenType::LeftBrace) && i.value is Some
                && check(ts, i.pos, TokenType::RightBrace)
            &&& check(ts, pos, TokenType::LeftBrace) && i.value is Some && check(
                ts,
                i.pos,
                TokenType::RightBrace,
            ) ==> r == done(StatementView::Block(i.value->0), i.pos + 1, i.errors)
        }),
{
    reveal(block_at);
    reveal(block_items_at);
}

/// Whether the declarations of a block end at `pos`.
pub open spec fn block_ends(ts: Seq<TokenView>, pos: int) -> bool {
    check(ts, pos, TokenType::RightBrace) || at_end(ts, pos)
}

/// declaration*, behind the declarations of `list`.
pub proof fn lemma_block_items_step(
    ts: Seq<TokenView>,
    list: Seq<StatementView>,
    pos: int,
    errs: Seq<ErrorView>,
)
    ensures
        ({
            let d = declaration_at(ts, pos, errs);
            let r = block_items_at(ts, list, pos, errs);
            &&& block_ends(ts, pos) ==> r == done(list, pos, errs)
            &&& !block_ends(ts, pos) && r.value is Some ==> d.value is Some && pos + 1 <= d.pos
                <= ts.len()
            &&& !block_ends(ts, pos) && d.value is Some && pos + 1 <= d.pos <= ts.len() ==> r
                == block_items_at(ts, list.push(d.value->0), d.pos, d.errors)
        }),
{
    reveal(block_items_at);
    reveal(declaration_at);
}

/// `(` expression `)` statement ( `else` statement )?, after `if`.
pub proof fn lemma_if_step(ts: Seq<TokenView>, pos: int, errs: Seq<ErrorView>)
    ensures
        ({
            let c = expression_at(ts, pos + 1, errs);
            let t = statement_at(ts, c.pos + 1, c.errors);
            let e = statement_at(ts, t.pos + 1, t.errors);
            let r = if_at(ts, pos, errs);
            &&& r.value is Some ==> {
                &&& check(ts, pos, TokenType::LeftParen)
                &&& c.value is Some
                &&& check(ts, c.pos, TokenType::RightParen)
                &&& pos + 1 <= c.pos + 1 <= ts.len()
                &&& t.value is Some
                &&& c.pos + 1 <= t.pos <= ts.len()
                &&& check(ts, t.pos, TokenType::Else) ==> e.value is Some
            }
            &&& check(ts, pos, TokenType::LeftParen) && c.value is Some && check(
                ts,
                c.pos,
                TokenType::RightParen,
            ) && pos + 1 <= c.pos + 1 <= ts.len() && t.value is Some && c.pos + 1 <= t.pos
                <= ts.len() ==> r == if check(ts, t.pos, TokenType::Else) {
                if e.value is Some {
                    done(
                        StatementView::If {
                            condition: c.value->0,
                            then_branch: Box::new(t.value->0),
                            else_branch: Some(Box::new(e.value->0)),
                        },
                        e.pos,
                        e.errors,
                    )
                } else {
                    e
                }
            } else {
                done(
                    StatementView::If {
                        condition: c.value->0,
                        then_branch: Box::new(t.value->0),
                        else_branch: None,
                    },
                    t.pos,
                    t.errors,
                )
            }
        }),
{
    reveal(if_at);
    reveal(statement_at);
    reveal(expression_at);
}

/// `(` expression `)` statement, after `while`.
pub proof fn lemma_while_step(ts: Seq<TokenView>, pos: int, errs: Seq<ErrorView>)
    ensures
        ({
            let c = expression_at(ts, pos + 1, errs);
            let b = statement_at(ts, c.pos + 1, c.errors);
            let r = while_at(ts, pos, errs);
            &&& r.value is Some ==> {
                &&& check(ts, pos, TokenType::LeftParen)
                &&& c.value is Some
                &&& check(ts, c.pos, TokenType::RightParen)
                &&& pos + 1 <= c.pos + 1 <= ts.len()
                &&& b.value is Some
            }
            &&& check(ts, pos, TokenType::LeftParen) && c.value is Some && check(
                ts,
                c.pos,
                TokenType::RightParen,
            ) && pos + 1 <= c.pos + 1 <= ts.len() && b.value is Some ==> r == done(
                StatementView::While { condition: c.value->0, body: Box::new(b.value->0) },
                b.pos,
                b.errors,
            )
        }),
{
    reveal(while_at);
    reveal(statement_at);
    reveal(expression_at);
}

/// An expression, unless the token that stops the clause stands there.
pub proof fn lemma_optional_step(
    ts: Seq<TokenView>,
    pos: int,
    errs: Seq<ErrorView>,
    stop: TokenType,
)
    ensures
        ({
            let e = expression_at(ts, pos, errs);
            let r = optional_at(ts, pos, errs, stop);
            &&& check(ts, pos, stop) ==> r == done(None::<ExpressionView>, pos, errs)
            &&& !check(ts, pos, stop) && r.value is Some ==> e.value is Some
            &&& !check(ts, pos, stop) && e.value is Some ==> r == done(
                Some(e.value->0),
                e.pos,
                e.errors,
            )
        }),
{
    reveal(optional_at);
    reveal(expression_at);
}

/// The first clause of a `for` loop: `;`, a variable declaration, or an
/// expression statement.
pub proof fn lemma_initializer_step(ts: Seq<TokenView>, pos: int, errs: Seq<ErrorView>)
    ensures
        ({
            let s = if check(ts, pos, TokenType::Variable) {
                variable_declaration_at(ts, pos + 1, errs)
            } else {
                expression_statement_at(ts, pos, errs)
            };
            let r = initializer_at(ts, pos, errs);
            &&& check(ts, pos, TokenType::Semicolon) ==> r == done(
                None::<StatementView>,
                pos + 1,
                errs,
            )
            &&& !check(ts, pos, TokenType::Semicolon) && r.value is Some ==> s.value is Some
            &&& !check(ts, pos, TokenType::Semicolon) && s.value is Some ==> r == done(
                Some(s.value->0),
                s.pos,
                s.errors,
            )
        }),
{
    reveal(initializer_at);
    reveal(variable_declaration_at);
    reveal(expression_statement_at);
}

/// `(` initializer condition? `;` increment? `)`, after `for`.
pub proof fn lemma_clauses_step(ts: Seq<TokenView>, pos: int, errs: Seq<ErrorView>)
    ensures
        ({
            let i = initializer_at(ts, pos + 1, errs);
            let c = optional_at(ts, i.pos, i.errors, TokenType::Semicolon);
            let n = optional_at(ts, c.pos + 1, c.errors, TokenType::RightParen);
            let r = clauses_at(ts, pos, errs);
            &&& r.value is Some ==> {
                &&& check(ts, pos, TokenType::LeftParen)
                &&& i.value is Some
                &&& c.value is Some
                &&& check(ts, c.pos, TokenType::Semicolon)
                &&& n.value is Some
                &&& check(ts, n.pos, TokenType::RightParen)
            }
            &&& check(ts, pos, TokenType::LeftParen) && i.value is Some && c.value is Some
                && check(ts, c.pos, TokenType::Semicolon) && n.value is Some && check(
                ts,
                n.pos,
                TokenType::RightParen,
            ) ==> r == done(
                ForClauses {
                    initializer: i.value->0,
                    condition: c.value->0,
                    increment: n.value->0,
                },
                n.pos + 1,
                n.errors,
            )
        }),
{
    reveal(clauses_at);
    reveal(initializer_at);
    reveal(optional_at);
}

/// clauses statement, after `for`.
pub proof fn lemma_for_step(ts: Seq<TokenView>, pos: int, errs: Seq<ErrorView>)
    ensures
        ({
            let c = clauses_at(ts, pos, errs);
            let b = statement_at(ts, c.pos, c.errors);
            let r = for_at(ts, pos, errs);
            &&& r.value is Some ==> c.value is Some && pos + 1 <= c.pos <= ts.len() && b.value
                is Some
            &&& c.value is Some && pos + 1 <= c.pos <= ts.len() && b.value is Some ==> r == done(
                desugared_for(c.value->0, b.value->0),
                b.pos,
                b.errors,
            )
        }),
{
    reveal(for_at);
    reveal(clauses_at);
    reveal(statement_at);
}

/// declaration*, behind the declarations of `list`, up to the end.
pub proof fn lemma_program_step(
    ts: Seq<TokenView>,
    list: Seq<StatementView>,
    pos: int,
    errs: Seq<ErrorView>,
)
    ensures
        ({
            let d = declaration_at(ts, pos, errs);
            let r = program_at(ts, list, pos, errs);
            let stop = at_end(ts, pos) || errs.len() > 0;
            &&& stop ==> r == done(list, pos, errs)
            &&& !stop && r.value is Some ==> d.value is Some && pos + 1 <= d.pos <= ts.len()
            &&& !stop && d.value is Some && pos + 1 <= d.pos <= ts.len() ==> r == program_at(
                ts,
                list.push(d.value->0),
                d.pos,
                d.errors,
            )
        }),
{
    reveal(program_at);
    reveal(declaration_at);
}

} // verus!
