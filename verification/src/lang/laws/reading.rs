//! The same tokens in another place are read as the same expression.
//!
//! The proofs speak of each grammar function by a name of its own, so that
//! a proof looks into a function only where it says so.

use vstd::prelude::*;
use crate::lang::errors::ErrorView;
use crate::lang::grammar::{
    at_end,
    binary_levels,
    binary_node,
    check,
    done,
    is_operator,
    parse_arguments,
    parse_assignment,
    parse_binary,
    parse_binary_rest,
    parse_call,
    parse_call_rest,
    parse_expression,
    parse_finish_call,
    parse_primary,
    parse_unary,
    Parsed,
};
use crate::lang::lexer::{TokenType, TokenView};
use crate::lang::parser::ExpressionView;
use crate::lang::laws::expressions::{
    agree,
    lemma_agree_at,
    lemma_agree_next,
    lemma_agree_part,
    lemma_arguments_tokens,
    lemma_assignment_tokens,
    lemma_binary_rest_tokens,
    lemma_binary_tokens,
    lemma_call_rest_tokens,
    lemma_call_tokens,
    lemma_expression_tokens,
    lemma_finish_call_tokens,
    lemma_operand_tokens,
    lemma_primary_tokens,
    lemma_unary_tokens,
    lemma_well_scanned_at,
    operand,
    reads_back,
    reads_back_list,
    stops,
    stops_expression,
    well_scanned,
    went_well,
};
use crate::lang::rendering::{placeless, placeless_expression, placeless_expressions};

verus! {

// ---------------------------------------------------------------------------
// The grammar functions, by name
// ---------------------------------------------------------------------------

/// [`parse_expression`], by name.
#[verifier::opaque]
pub open spec fn expression_at(ts: Seq<TokenView>, pos: int, errs: Seq<ErrorView>) -> Parsed<ExpressionView> {
    parse_expression(ts, pos, errs)
}

/// [`parse_assignment`], by name.
#[verifier::opaque]
pub open spec fn assignment_at(ts: Seq<TokenView>, pos: int, errs: Seq<ErrorView>) -> Parsed<ExpressionView> {
    parse_assignment(ts, pos, errs)
}

/// [`parse_binary`], by name.
#[verifier::opaque]
pub open spec fn binary_at(ts: Seq<TokenView>, level: int, pos: int, errs: Seq<ErrorView>) -> Parsed<ExpressionView> {
    parse_binary(ts, level, pos, errs)
}

/// [`operand`], by name.
#[verifier::opaque]
pub open spec fn operand_at(ts: Seq<TokenView>, level: int, pos: int, errs: Seq<ErrorView>) -> Parsed<ExpressionView> {
    operand(ts, level, pos, errs)
}

/// [`parse_binary_rest`], by name.
#[verifier::opaque]
pub open spec fn binary_rest_at(ts: Seq<TokenView>, level: int, left: ExpressionView, pos: int, errs: Seq<ErrorView>) -> Parsed<ExpressionView> {
    parse_binary_rest(ts, level, left, pos, errs)
}

/// [`parse_unary`], by name.
#[verifier::opaque]
pub open spec fn unary_at(ts: Seq<TokenView>, pos: int, errs: Seq<ErrorView>) -> Parsed<ExpressionView> {
    parse_unary(ts, pos, errs)
}

/// [`parse_call`], by name.
#[verifier::opaque]
pub open spec fn call_at(ts: Seq<TokenView>, pos: int, errs: Seq<ErrorView>) -> Parsed<ExpressionView> {
    parse_call(ts, pos, errs)
}

/// [`parse_call_rest`], by name.
#[verifier::opaque]
pub open spec fn call_rest_at(ts: Seq<TokenView>, callee: ExpressionView, pos: int, errs: Seq<ErrorView>) -> Parsed<ExpressionView> {
    parse_call_rest(ts, callee, pos, errs)
}

/// [`parse_finish_call`], by name.
#[verifier::opaque]
pub open spec fn finish_call_at(ts: Seq<TokenView>, callee: ExpressionView, pos: int, errs: Seq<ErrorView>) -> Parsed<ExpressionView> {
    parse_finish_call(ts, callee, pos, errs)
}

/// [`parse_arguments`], by name.
#[verifier::opaque]
pub open spec fn arguments_at(ts: Seq<TokenView>, list: Seq<ExpressionView>, pos: int, errs: Seq<ErrorView>) -> Parsed<Seq<ExpressionView>> {
    parse_arguments(ts, list, pos, errs)
}

/// [`parse_primary`], by name.
#[verifier::opaque]
pub open spec fn primary_at(ts: Seq<TokenView>, pos: int, errs: Seq<ErrorView>) -> Parsed<ExpressionView> {
    parse_primary(ts, pos, errs)
}

// ---------------------------------------------------------------------------
// Where a parse began and ended
// ---------------------------------------------------------------------------

/// A parse that went well began with no diagnostic and ended behind the
/// index where it began, before the end token.
pub proof fn lemma_expression_bounds(ts: Seq<TokenView>, pos: int, errs: Seq<ErrorView>)
    requires
        well_scanned(ts),
        0 <= pos < ts.len(),
        went_well(expression_at(ts, pos, errs)),
    ensures
        errs.len() == 0,
        pos < expression_at(ts, pos, errs).pos < ts.len(),
{
    reveal(expression_at);
    lemma_expression_tokens(ts, pos, errs);
}

/// A parse that went well began with no diagnostic and ended behind the
/// index where it began, before the end token.
pub proof fn lemma_assignment_bounds(ts: Seq<TokenView>, pos: int, errs: Seq<ErrorView>)
    requires
        well_scanned(ts),
        0 <= pos < ts.len(),
        went_well(assignment_at(ts, pos, errs)),
    ensures
        errs.len() == 0,
        pos < assignment_at(ts, pos, errs).pos < ts.len(),
{
    reveal(assignment_at);
    lemma_assignment_tokens(ts, pos, errs);
}

/// A parse that went well began with no diagnostic and ended behind the
/// index where it began, before the end token.
pub proof fn lemma_binary_bounds(ts: Seq<TokenView>, level: int, pos: int, errs: Seq<ErrorView>)
    requires
        well_scanned(ts),
        0 <= pos < ts.len(),
        went_well(binary_at(ts, level, pos, errs)),
    ensures
        errs.len() == 0,
        pos < binary_at(ts, level, pos, errs).pos < ts.len(),
        0 <= level < binary_levels(),
{
    reveal(binary_at);
    lemma_binary_tokens(ts, level, pos, errs);
}

/// A parse that went well began with no diagnostic and ended behind the
/// index where it began, before the end token.
pub proof fn lemma_operand_bounds(ts: Seq<TokenView>, level: int, pos: int, errs: Seq<ErrorView>)
    requires
        well_scanned(ts),
        0 <= pos < ts.len(),
        0 <= level < binary_levels(),
        went_well(operand_at(ts, level, pos, errs)),
    ensures
        errs.len() == 0,
        pos < operand_at(ts, level, pos, errs).pos < ts.len(),
{
    reveal(operand_at);
    lemma_operand_tokens(ts, level, pos, errs);
}

/// A parse that went well began with no diagnostic and ended behind the
/// index where it began, before the end token.
pub proof fn lemma_binary_rest_bounds(ts: Seq<TokenView>, level: int, left: ExpressionView, pos: int, errs: Seq<ErrorView>)
    requires
        well_scanned(ts),
        0 <= pos <= ts.len(),
        went_well(binary_rest_at(ts, level, left, pos, errs)),
    ensures
        errs.len() == 0,
        pos <= binary_rest_at(ts, level, left, pos, errs).pos <= ts.len(),
        pos < ts.len() ==> binary_rest_at(ts, level, left, pos, errs).pos < ts.len(),
{
    reveal(binary_rest_at);
    lemma_binary_rest_tokens(ts, level, left, pos, errs);
}

/// A parse that went well began with no diagnostic and ended behind the
/// index where it began, before the end token.
pub proof fn lemma_unary_bounds(ts: Seq<TokenView>, pos: int, errs: Seq<ErrorView>)
    requires
        well_scanned(ts),
        0 <= pos < ts.len(),
        went_well(unary_at(ts, pos, errs)),
    ensures
        errs.len() == 0,
        pos < unary_at(ts, pos, errs).pos < ts.len(),
{
    reveal(unary_at);
    lemma_unary_tokens(ts, pos, errs);
}

/// A parse that went well began with no diagnostic and ended behind the
/// index where it began, before the end token.
pub proof fn lemma_call_bounds(ts: Seq<TokenView>, pos: int, errs: Seq<ErrorView>)
    requires
        well_scanned(ts),
        0 <= pos < ts.len(),
        went_well(call_at(ts, pos, errs)),
    ensures
        errs.len() == 0,
        pos < call_at(ts, pos, errs).pos < ts.len(),
{
    reveal(call_at);
    lemma_call_tokens(ts, pos, errs);
}

/// A parse that went well began with no diagnostic and ended behind the
/// index where it began, before the end token.
pub proof fn lemma_call_rest_bounds(ts: Seq<TokenView>, callee: ExpressionView, pos: int, errs: Seq<ErrorView>)
    requires
        well_scanned(ts),
        0 <= pos <= ts.len(),
        went_well(call_rest_at(ts, callee, pos, errs)),
    ensures
        errs.len() == 0,
        pos <= call_rest_at(ts, callee, pos, errs).pos <= ts.len(),
        pos < ts.len() ==> call_rest_at(ts, callee, pos, errs).pos < ts.len(),
{
    reveal(call_rest_at);
    lemma_call_rest_tokens(ts, callee, pos, errs);
}

/// A parse that went well began with no diagnostic and ended behind the
/// index where it began, before the end token.
pub proof fn lemma_finish_call_bounds(ts: Seq<TokenView>, callee: ExpressionView, pos: int, errs: Seq<ErrorView>)
    requires
        well_scanned(ts),
        0 <= pos < ts.len(),
        went_well(finish_call_at(ts, callee, pos, errs)),
    ensures
        errs.len() == 0,
        pos < finish_call_at(ts, callee, pos, errs).pos < ts.len(),
{
    reveal(finish_call_at);
    lemma_finish_call_tokens(ts, callee, pos, errs);
}

/// A parse that went well began with no diagnostic and ended behind the
/// index where it began, before the end token.
pub proof fn lemma_arguments_bounds(ts: Seq<TokenView>, list: Seq<ExpressionView>, pos: int, errs: Seq<ErrorView>)
    requires
        well_scanned(ts),
        0 <= pos < ts.len(),
        went_well(arguments_at(ts, list, pos, errs)),
    ensures
        errs.len() == 0,
        pos < arguments_at(ts, list, pos, errs).pos < ts.len(),
        list.len() < 255,
{
    reveal(arguments_at);
    lemma_arguments_tokens(ts, list, pos, errs);
}

/// A parse that went well began with no diagnostic and ended behind the
/// index where it began, before the end token.
pub proof fn lemma_primary_bounds(ts: Seq<TokenView>, pos: int, errs: Seq<ErrorView>)
    requires
        well_scanned(ts),
        0 <= pos < ts.len(),
        went_well(primary_at(ts, pos, errs)),
    ensures
        errs.len() == 0,
        pos < primary_at(ts, pos, errs).pos < ts.len(),
{
    reveal(primary_at);
    lemma_primary_tokens(ts, pos, errs);
}

// ---------------------------------------------------------------------------
// Trees that differ in places only
// ---------------------------------------------------------------------------

/// Two calls differ in places only if their parts do.
pub proof fn lemma_placeless_call(
    callee: ExpressionView,
    parenthesis: TokenView,
    arguments: Seq<ExpressionView>,
    callee2: ExpressionView,
    parenthesis2: TokenView,
    arguments2: Seq<ExpressionView>,
)
    requires
        placeless_expression(callee2) == placeless_expression(callee),
        placeless(parenthesis2) == placeless(parenthesis),
        placeless_expressions(arguments2) == placeless_expressions(arguments),
    ensures
        placeless_expression(
            ExpressionView::Call {
                callee: Box::new(callee2),
                parenthesis: parenthesis2,
                arguments: arguments2,
            },
        ) == placeless_expression(
            ExpressionView::Call { callee: Box::new(callee), parenthesis, arguments },
        ),
{
    reveal_with_fuel(placeless_expression, 1);
    reveal(placeless_expressions);
    let a = placeless_expression(
        ExpressionView::Call { callee: Box::new(callee), parenthesis, arguments },
    );
    let b = placeless_expression(
        ExpressionView::Call {
            callee: Box::new(callee2),
            parenthesis: parenthesis2,
            arguments: arguments2,
        },
    );
    assert(a->Call_arguments =~= placeless_expressions(arguments));
    assert(b->Call_arguments =~= placeless_expressions(arguments2));
}

/// Two chains differ in places only if their operands and operators do.
pub proof fn lemma_placeless_node(
    level: int,
    left: ExpressionView,
    operator: TokenView,
    right: ExpressionView,
    left2: ExpressionView,
    operator2: TokenView,
    right2: ExpressionView,
)
    requires
        placeless_expression(left2) == placeless_expression(left),
        placeless(operator2) == placeless(operator),
        placeless_expression(right2) == placeless_expression(right),
    ensures
        placeless_expression(binary_node(level, left2, operator2, right2)) == placeless_expression(
            binary_node(level, left, operator, right),
        ),
        placeless_expression(ExpressionView::Unary { operator: operator2, right: Box::new(right2) })
            == placeless_expression(ExpressionView::Unary { operator, right: Box::new(right) }),
        placeless_expression(ExpressionView::Grouping(Box::new(right2))) == placeless_expression(
            ExpressionView::Grouping(Box::new(right)),
        ),
        placeless_expression(ExpressionView::Assign { name: operator2, value: Box::new(right2) })
            == placeless_expression(ExpressionView::Assign { name: operator, value: Box::new(right) }),
{
    reveal_with_fuel(placeless_expression, 1);
}

/// Two variables differ in places only if their names do, and a variable
/// differs so from nothing but a variable.
pub proof fn lemma_placeless_variable(e: ExpressionView, e2: ExpressionView)
    requires
        placeless_expression(e2) == placeless_expression(e),
        e is Variable,
    ensures
        e2 is Variable,
        placeless(e2->Variable_0) == placeless(e->Variable_0),
{
    reveal_with_fuel(placeless_expression, 1);
}

/// Two lists that differ in places only are equally long, and still differ
/// so with one more expression each.
pub proof fn lemma_placeless_push(
    list: Seq<ExpressionView>,
    a: ExpressionView,
    list2: Seq<ExpressionView>,
    a2: ExpressionView,
)
    requires
        placeless_expressions(list2) == placeless_expressions(list),
        placeless_expression(a2) == placeless_expression(a),
    ensures
        list2.len() == list.len(),
        placeless_expressions(list2.push(a2)) == placeless_expressions(list.push(a)),
{
    reveal(placeless_expressions);
    let s1 = placeless_expressions(list);
    let s2 = placeless_expressions(list2);
    assert(s1.len() == list.len());
    assert(s2.len() == list2.len());
    assert forall|k: int| 0 <= k < list.len() implies placeless_expression(list2[k])
        == placeless_expression(list[k]) by {
        assert(s2[k] == placeless_expression(list2[k]));
        assert(s1[k] == placeless_expression(list[k]));
    }
    let t1 = placeless_expressions(list.push(a));
    let t2 = placeless_expressions(list2.push(a2));
    assert(t1.len() == t2.len());
    assert forall|k: int| 0 <= k < t1.len() implies t1[k] == t2[k] by {
        if k < list.len() {
            assert(list.push(a)[k] == list[k]);
            assert(list2.push(a2)[k] == list2[k]);
        }
    }
    assert(t2 =~= t1);
}

/// An empty list differs from itself in nothing.
pub proof fn lemma_placeless_same_length(list: Seq<ExpressionView>, list2: Seq<ExpressionView>)
    requires
        placeless_expressions(list2) == placeless_expressions(list),
    ensures
        list2.len() == list.len(),
{
    reveal(placeless_expressions);
    assert(placeless_expressions(list2).len() == list2.len());
    assert(placeless_expressions(list).len() == list.len());
}


// ---------------------------------------------------------------------------
// How each function goes on
// ---------------------------------------------------------------------------

/// An expression is an assignment.
pub proof fn lemma_expression_step(ts: Seq<TokenView>, pos: int, errs: Seq<ErrorView>)
    ensures
        expression_at(ts, pos, errs) == assignment_at(ts, pos, errs),
{
    reveal(expression_at);
    reveal(assignment_at);
}

/// How an assignment is parsed: a chain of the loosest level, and behind
/// an `=` the value, which is an assignment.
pub proof fn lemma_assignment_step(ts: Seq<TokenView>, pos: int, errs: Seq<ErrorView>)
    ensures
        ({
            let t = binary_at(ts, 0, pos, errs);
            let v = assignment_at(ts, t.pos + 1, t.errors);
            &&& assignment_at(ts, pos, errs).value is Some ==> {
                &&& t.value is Some
                &&& pos <= t.pos <= ts.len()
                &&& check(ts, t.pos, TokenType::Equal) ==> v.value is Some && t.value->0
                    is Variable
            }
            &&& t.value is Some && pos <= t.pos <= ts.len() && !check(
                ts,
                t.pos,
                TokenType::Equal,
            ) ==> assignment_at(ts, pos, errs) == t
            &&& t.value is Some && pos <= t.pos <= ts.len() && check(ts, t.pos, TokenType::Equal)
                && v.value is Some && t.value->0 is Variable ==> assignment_at(ts, pos, errs)
                == done(
                ExpressionView::Assign {
                    name: t.value->0->Variable_0,
                    value: Box::new(v.value->0),
                },
                v.pos,
                v.errors,
            )
        }),
{
    reveal(assignment_at);
    reveal(binary_at);
}

/// An operand is a chain of the next level, or a unary expression.
pub proof fn lemma_operand_step(ts: Seq<TokenView>, level: int, pos: int, errs: Seq<ErrorView>)
    ensures
        operand_at(ts, level, pos, errs) == if level + 1 < binary_levels() {
            binary_at(ts, level + 1, pos, errs)
        } else {
            unary_at(ts, pos, errs)
        },
{
    reveal(operand_at);
    reveal(binary_at);
    reveal(unary_at);
}

/// How a chain is parsed: its first operand, and the rest.
pub proof fn lemma_binary_step(ts: Seq<TokenView>, level: int, pos: int, errs: Seq<ErrorView>)
    ensures
        ({
            let o = operand_at(ts, level, pos, errs);
            &&& binary_at(ts, level, pos, errs).value is Some ==> {
                &&& 0 <= level < binary_levels()
                &&& o.value is Some
                &&& pos <= o.pos <= ts.len()
            }
            &&& 0 <= level < binary_levels() && o.value is Some && pos <= o.pos <= ts.len()
                ==> binary_at(ts, level, pos, errs) == binary_rest_at(
                ts,
                level,
                o.value->0,
                o.pos,
                o.errors,
            )
        }),
{
    reveal(binary_at);
    reveal(operand_at);
    reveal(binary_rest_at);
}

/// Whether an operator of level `level` stands at `pos`.
pub open spec fn continues(ts: Seq<TokenView>, level: int, pos: int) -> bool {
    0 <= level < binary_levels() && !at_end(ts, pos) && is_operator(level, ts[pos].token_type)
}

/// How the rest of a chain is parsed: nothing, or an operator, an operand
/// and the rest.
pub proof fn lemma_binary_rest_step(
    ts: Seq<TokenView>,
    level: int,
    left: ExpressionView,
    pos: int,
    errs: Seq<ErrorView>,
)
    ensures
        ({
            let o = operand_at(ts, level, pos + 1, errs);
            &&& !continues(ts, level, pos) ==> binary_rest_at(ts, level, left, pos, errs) == done(
                left,
                pos,
                errs,
            )
            &&& continues(ts, level, pos) && binary_rest_at(ts, level, left, pos, errs).value
                is Some ==> o.value is Some && pos + 1 <= o.pos <= ts.len()
            &&& continues(ts, level, pos) && o.value is Some && pos + 1 <= o.pos <= ts.len()
                ==> binary_rest_at(ts, level, left, pos, errs) == binary_rest_at(
                ts,
                level,
                binary_node(level, left, ts[pos], o.value->0),
                o.pos,
                o.errors,
            )
        }),
{
    reveal(binary_rest_at);
    reveal(operand_at);
}

/// Whether a unary operator stands at `pos`.
pub open spec fn negates(ts: Seq<TokenView>, pos: int) -> bool {
    check(ts, pos, TokenType::Bang) || check(ts, pos, TokenType::Minus)
}

/// How a unary expression is parsed: an operator and a unary expression,
/// or a call.
pub proof fn lemma_unary_step(ts: Seq<TokenView>, pos: int, errs: Seq<ErrorView>)
    ensures
        ({
            let u = unary_at(ts, pos + 1, errs);
            &&& !negates(ts, pos) ==> unary_at(ts, pos, errs) == call_at(ts, pos, errs)
            &&& negates(ts, pos) && unary_at(ts, pos, errs).value is Some ==> u.value is Some
            &&& negates(ts, pos) && u.value is Some ==> unary_at(ts, pos, errs) == done(
                ExpressionView::Unary { operator: ts[pos], right: Box::new(u.value->0) },
                u.pos,
                u.errors,
            )
        }),
{
    reveal(unary_at);
    reveal(call_at);
}

/// How a call is parsed: a primary expression, and the argument lists
/// behind it.
pub proof fn lemma_call_step(ts: Seq<TokenView>, pos: int, errs: Seq<ErrorView>)
    ensures
        ({
            let p = primary_at(ts, pos, errs);
            &&& call_at(ts, pos, errs).value is Some ==> p.value is Some && pos <= p.pos
                <= ts.len()
            &&& p.value is Some && pos <= p.pos <= ts.len() ==> call_at(ts, pos, errs)
                == call_rest_at(ts, p.value->0, p.pos, p.errors)
        }),
{
    reveal(call_at);
    reveal(primary_at);
    reveal(call_rest_at);
}

/// How the argument lists behind a callee are parsed: none, or one list
/// and the lists behind it.
pub proof fn lemma_call_rest_step(
    ts: Seq<TokenView>,
    callee: ExpressionView,
    pos: int,
    errs: Seq<ErrorView>,
)
    ensures
        ({
            let c = finish_call_at(ts, callee, pos + 1, errs);
            &&& !check(ts, pos, TokenType::LeftParen) ==> call_rest_at(ts, callee, pos, errs)
                == done(callee, pos, errs)
            &&& check(ts, pos, TokenType::LeftParen) && call_rest_at(
                ts,
                callee,
                pos,
                errs,
            ).value is Some ==> c.value is Some && pos + 1 <= c.pos <= ts.len()
            &&& check(ts, pos, TokenType::LeftParen) && c.value is Some && pos + 1 <= c.pos
                <= ts.len() ==> call_rest_at(ts, callee, pos, errs) == call_rest_at(
                ts,
                c.value->0,
                c.pos,
                c.errors,
            )
        }),
{
    reveal(call_rest_at);
    reveal(finish_call_at);
}

/// How an argument list and its closing parenthesis are parsed.
pub proof fn lemma_finish_call_step(
    ts: Seq<TokenView>,
    callee: ExpressionView,
    pos: int,
    errs: Seq<ErrorView>,
)
    ensures
        ({
            let l = arguments_at(ts, Seq::empty(), pos, errs);
            &&& check(ts, pos, TokenType::RightParen) ==> finish_call_at(ts, callee, pos, errs)
                == done(
                ExpressionView::Call {
                    callee: Box::new(callee),
                    parenthesis: ts[pos],
                    arguments: Seq::empty(),
                },
                pos + 1,
                errs,
            )
            &&& !check(ts, pos, TokenType::RightParen) && went_well(
                finish_call_at(ts, callee, pos, errs),
            ) ==> went_well(l) && check(ts, l.pos, TokenType::RightParen)
            &&& !check(ts, pos, TokenType::RightParen) && l.value is Some && check(
                ts,
                l.pos,
                TokenType::RightParen,
            ) ==> finish_call_at(ts, callee, pos, errs) == done(
                ExpressionView::Call {
                    callee: Box::new(callee),
                    parenthesis: ts[l.pos],
                    arguments: l.value->0,
                },
                l.pos + 1,
                l.errors,
            )
        }),
{
    reveal(finish_call_at);
    reveal(arguments_at);
}

/// How an argument list is parsed: its first argument, and behind a comma
/// the rest.
pub proof fn lemma_arguments_step(
    ts: Seq<TokenView>,
    list: Seq<ExpressionView>,
    pos: int,
    errs: Seq<ErrorView>,
)
    requires
        list.len() < 255,
    ensures
        ({
            let a = expression_at(ts, pos, errs);
            &&& arguments_at(ts, list, pos, errs).value is Some ==> a.value is Some && pos
                <= a.pos <= ts.len()
            &&& a.value is Some && pos <= a.pos <= ts.len() ==> arguments_at(ts, list, pos, errs)
                == if check(ts, a.pos, TokenType::Comma) {
                arguments_at(ts, list.push(a.value->0), a.pos + 1, a.errors)
            } else {
                done(list.push(a.value->0), a.pos, a.errors)
            }
        }),
{
    reveal(arguments_at);
    reveal(expression_at);
}

/// How a group is parsed, and that a group that parses holds an
/// expression that parses, before a closing parenthesis.
pub proof fn lemma_group_step(ts: Seq<TokenView>, pos: int, errs: Seq<ErrorView>)
    requires
        check(ts, pos, TokenType::LeftParen),
    ensures
        ({
            let e = expression_at(ts, pos + 1, errs);
            &&& went_well(primary_at(ts, pos, errs)) ==> went_well(e) && check(
                ts,
                e.pos,
                TokenType::RightParen,
            )
            &&& e.value is Some && check(ts, e.pos, TokenType::RightParen) ==> primary_at(
                ts,
                pos,
                errs,
            ) == done(ExpressionView::Grouping(Box::new(e.value->0)), e.pos + 1, e.errors)
        }),
{
    reveal(primary_at);
    reveal(expression_at);
}

/// A primary expression of one token is read again from the same token in
/// another place.
pub proof fn lemma_token_back(
    ts: Seq<TokenView>,
    pos: int,
    errs: Seq<ErrorView>,
    ts2: Seq<TokenView>,
    q: int,
    errs2: Seq<ErrorView>,
)
    requires
        0 <= pos < ts.len(),
        went_well(primary_at(ts, pos, errs)),
        !check(ts, pos, TokenType::LeftParen),
        0 <= q < ts2.len(),
        placeless(ts2[q]) == placeless(ts[pos]),
    ensures
        primary_at(ts, pos, errs).pos == pos + 1,
        reads_back(primary_at(ts, pos, errs), pos, primary_at(ts2, q, errs2), q, errs2),
{
    reveal(primary_at);
    reveal_with_fuel(placeless_expression, 1);
}

// ---------------------------------------------------------------------------
// Reading back
// ---------------------------------------------------------------------------

/// An expression that parses is read again, as the same expression but for
/// the places of its tokens, wherever the same tokens stand before a token
/// that ends an expression.
pub proof fn lemma_expression_back(
    ts: Seq<TokenView>,
    pos: int,
    errs: Seq<ErrorView>,
    ts2: Seq<TokenView>,
    q: int,
    errs2: Seq<ErrorView>,
)
    requires
        well_scanned(ts),
        0 <= pos < ts.len(),
        went_well(expression_at(ts, pos, errs)),
        agree(ts, pos, ts2, q, expression_at(ts, pos, errs).pos - pos),
        stops_expression(ts2[q + (expression_at(ts, pos, errs).pos - pos)].token_type),
    ensures
        reads_back(expression_at(ts, pos, errs), pos, expression_at(ts2, q, errs2), q, errs2),
    decreases ts.len() - pos, 22int,
{
    lemma_expression_step(ts, pos, errs);
    lemma_expression_step(ts2, q, errs2);
    lemma_assignment_back(ts, pos, errs, ts2, q, errs2);
}

/// [`lemma_expression_back`], of an assignment.
pub proof fn lemma_assignment_back(
    ts: Seq<TokenView>,
    pos: int,
    errs: Seq<ErrorView>,
    ts2: Seq<TokenView>,
    q: int,
    errs2: Seq<ErrorView>,
)
    requires
        well_scanned(ts),
        0 <= pos < ts.len(),
        went_well(assignment_at(ts, pos, errs)),
        agree(ts, pos, ts2, q, assignment_at(ts, pos, errs).pos - pos),
        stops_expression(ts2[q + (assignment_at(ts, pos, errs).pos - pos)].token_type),
    ensures
        reads_back(assignment_at(ts, pos, errs), pos, assignment_at(ts2, q, errs2), q, errs2),
    decreases ts.len() - pos, 21int,
{
    let r = assignment_at(ts, pos, errs);
    let n = r.pos - pos;
    lemma_assignment_bounds(ts, pos, errs);
    lemma_assignment_step(ts, pos, errs);
    lemma_assignment_step(ts2, q, errs2);
    let t = binary_at(ts, 0, pos, errs);
    let t2 = binary_at(ts2, 0, q, errs2);
    lemma_agree_next(ts, pos, ts2, q, n);
    if check(ts, t.pos, TokenType::Equal) {
        lemma_well_scanned_at(ts, t.pos);
        let v = assignment_at(ts, t.pos + 1, t.errors);
        lemma_assignment_bounds(ts, t.pos + 1, t.errors);
        lemma_binary_bounds(ts, 0, pos, errs);
        lemma_variable_is_one_token(ts, pos, errs);
        lemma_agree_part(ts, pos, ts2, q, n, 0, 1);
        lemma_agree_at(ts, pos, ts2, q, n, 1);
        lemma_agree_part(ts, pos, ts2, q, n, 2, n - 2);
        lemma_binary_back(ts, 0, pos, errs, ts2, q, errs2);
        lemma_assignment_back(ts, t.pos + 1, t.errors, ts2, q + 2, errs2);
        lemma_placeless_variable(t.value->0, t2.value->0);
        let v2 = assignment_at(ts2, q + 2, errs2);
        lemma_placeless_node(
            0,
            t.value->0,
            t.value->0->Variable_0,
            v.value->0,
            t2.value->0,
            t2.value->0->Variable_0,
            v2.value->0,
        );
    } else {
        lemma_binary_back(ts, 0, pos, errs, ts2, q, errs2);
    }
}

/// A chain that is a variable was read from one token.
pub proof fn lemma_variable_is_one_token(ts: Seq<TokenView>, pos: int, errs: Seq<ErrorView>)
    requires
        well_scanned(ts),
        0 <= pos < ts.len(),
        went_well(binary_at(ts, 0, pos, errs)),
        binary_at(ts, 0, pos, errs).value->0 is Variable,
    ensures
        binary_at(ts, 0, pos, errs).pos == pos + 1,
{
    reveal(binary_at);
    lemma_binary_tokens(ts, 0, pos, errs);
    let t = parse_binary(ts, 0, pos, errs);
    assert(crate::lang::rendering::expression_tokens(t.value->0).len() == 1);
    crate::lang::laws::expressions::lemma_segment_parts(ts, pos, t.pos, t.pos);
}

/// [`lemma_expression_back`], of a chain of binary operators.
pub proof fn lemma_binary_back(
    ts: Seq<TokenView>,
    level: int,
    pos: int,
    errs: Seq<ErrorView>,
    ts2: Seq<TokenView>,
    q: int,
    errs2: Seq<ErrorView>,
)
    requires
        well_scanned(ts),
        0 <= pos < ts.len(),
        went_well(binary_at(ts, level, pos, errs)),
        agree(ts, pos, ts2, q, binary_at(ts, level, pos, errs).pos - pos),
        stops(level, ts2[q + (binary_at(ts, level, pos, errs).pos - pos)].token_type),
    ensures
        reads_back(
            binary_at(ts, level, pos, errs),
            pos,
            binary_at(ts2, level, q, errs2),
            q,
            errs2,
        ),
    decreases ts.len() - pos, 20 - 2 * level,
{
    let r = binary_at(ts, level, pos, errs);
    let n = r.pos - pos;
    lemma_binary_bounds(ts, level, pos, errs);
    lemma_binary_step(ts, level, pos, errs);
    lemma_binary_step(ts2, level, q, errs2);
    let first = operand_at(ts, level, pos, errs);
    lemma_binary_rest_bounds(ts, level, first.value->0, first.pos, first.errors);
    lemma_operand_bounds(ts, level, pos, errs);
    let n1 = first.pos - pos;
    lemma_agree_next(ts, pos, ts2, q, n);
    lemma_agree_part(ts, pos, ts2, q, n, 0, n1);
    lemma_agree_part(ts, pos, ts2, q, n, n1, n - n1);
    lemma_follows_operand(ts, level, first.value->0, first.pos, first.errors, ts2, q + n1);
    lemma_operand_back(ts, level, pos, errs, ts2, q, errs2);
    let first2 = operand_at(ts2, level, q, errs2);
    lemma_binary_rest_back(
        ts,
        level,
        first.value->0,
        first.pos,
        first.errors,
        ts2,
        first2.value->0,
        q + n1,
        errs2,
    );
}

/// [`lemma_expression_back`], of an operand.
pub proof fn lemma_operand_back(
    ts: Seq<TokenView>,
    level: int,
    pos: int,
    errs: Seq<ErrorView>,
    ts2: Seq<TokenView>,
    q: int,
    errs2: Seq<ErrorView>,
)
    requires
        well_scanned(ts),
        0 <= pos < ts.len(),
        0 <= level < binary_levels(),
        went_well(operand_at(ts, level, pos, errs)),
        agree(ts, pos, ts2, q, operand_at(ts, level, pos, errs).pos - pos),
        stops(level + 1, ts2[q + (operand_at(ts, level, pos, errs).pos - pos)].token_type),
    ensures
        reads_back(
            operand_at(ts, level, pos, errs),
            pos,
            operand_at(ts2, level, q, errs2),
            q,
            errs2,
        ),
    decreases ts.len() - pos, 19 - 2 * level,
{
    lemma_operand_step(ts, level, pos, errs);
    lemma_operand_step(ts2, level, q, errs2);
    if level + 1 < binary_levels() {
        lemma_binary_back(ts, level + 1, pos, errs, ts2, q, errs2);
    } else {
        lemma_unary_back(ts, pos, errs, ts2, q, errs2);
    }
}

/// The token behind an operand of a chain ends that operand, in a sequence
/// that agrees on the rest of the chain and goes on with a token that ends
/// the chain.
pub proof fn lemma_follows_operand(
    ts: Seq<TokenView>,
    level: int,
    left: ExpressionView,
    pos: int,
    errs: Seq<ErrorView>,
    ts2: Seq<TokenView>,
    q: int,
)
    requires
        well_scanned(ts),
        0 <= level < binary_levels(),
        0 <= pos <= ts.len(),
        went_well(binary_rest_at(ts, level, left, pos, errs)),
        agree(ts, pos, ts2, q, binary_rest_at(ts, level, left, pos, errs).pos - pos),
        stops(level, ts2[q + (binary_rest_at(ts, level, left, pos, errs).pos - pos)].token_type),
    ensures
        stops(level + 1, ts2[q].token_type),
{
    let r = binary_rest_at(ts, level, left, pos, errs);
    lemma_binary_rest_bounds(ts, level, left, pos, errs);
    lemma_binary_rest_step(ts, level, left, pos, errs);
    if continues(ts, level, pos) {
        let o = operand_at(ts, level, pos + 1, errs);
        lemma_well_scanned_at(ts, pos);
        lemma_binary_rest_bounds(
            ts,
            level,
            binary_node(level, left, ts[pos], o.value->0),
            o.pos,
            o.errors,
        );
        lemma_agree_at(ts, pos, ts2, q, r.pos - pos, 0);
    }
}

/// [`lemma_expression_back`], of the rest of a chain behind the operands
/// that make up `left`.
pub proof fn lemma_binary_rest_back(
    ts: Seq<TokenView>,
    level: int,
    left: ExpressionView,
    pos: int,
    errs: Seq<ErrorView>,
    ts2: Seq<TokenView>,
    left2: ExpressionView,
    q: int,
    errs2: Seq<ErrorView>,
)
    requires
        well_scanned(ts),
        0 <= pos <= ts.len(),
        0 <= level < binary_levels(),
        went_well(binary_rest_at(ts, level, left, pos, errs)),
        agree(ts, pos, ts2, q, binary_rest_at(ts, level, left, pos, errs).pos - pos),
        stops(level, ts2[q + (binary_rest_at(ts, level, left, pos, errs).pos - pos)].token_type),
        placeless_expression(left2) == placeless_expression(left),
    ensures
        reads_back(
            binary_rest_at(ts, level, left, pos, errs),
            pos,
            binary_rest_at(ts2, level, left2, q, errs2),
            q,
            errs2,
        ),
    decreases ts.len() - pos, 18 - 2 * level,
{
    let r = binary_rest_at(ts, level, left, pos, errs);
    let n = r.pos - pos;
    lemma_binary_rest_bounds(ts, level, left, pos, errs);
    lemma_binary_rest_step(ts, level, left, pos, errs);
    lemma_binary_rest_step(ts2, level, left2, q, errs2);
    lemma_agree_next(ts, pos, ts2, q, n);
    if continues(ts, level, pos) {
        lemma_well_scanned_at(ts, pos);
        let right = operand_at(ts, level, pos + 1, errs);
        let node = binary_node(level, left, ts[pos], right.value->0);
        lemma_binary_rest_bounds(ts, level, node, right.pos, right.errors);
        lemma_operand_bounds(ts, level, pos + 1, errs);
        let n1 = right.pos - pos;
        lemma_agree_at(ts, pos, ts2, q, n, 0);
        lemma_agree_part(ts, pos, ts2, q, n, 1, n1 - 1);
        lemma_agree_part(ts, pos, ts2, q, n, n1, n - n1);
        lemma_follows_operand(ts, level, node, right.pos, right.errors, ts2, q + n1);
        lemma_operand_back(ts, level, pos + 1, errs, ts2, q + 1, errs2);
        let right2 = operand_at(ts2, level, q + 1, errs2);
        let node2 = binary_node(level, left2, ts2[q], right2.value->0);
        lemma_placeless_node(level, left, ts[pos], right.value->0, left2, ts2[q], right2.value->0);
        lemma_binary_rest_back(
            ts,
            level,
            node,
            right.pos,
            right.errors,
            ts2,
            node2,
            q + n1,
            errs2,
        );
    }
}

/// [`lemma_expression_back`], of a unary expression.
pub proof fn lemma_unary_back(
    ts: Seq<TokenView>,
    pos: int,
    errs: Seq<ErrorView>,
    ts2: Seq<TokenView>,
    q: int,
    errs2: Seq<ErrorView>,
)
    requires
        well_scanned(ts),
        0 <= pos < ts.len(),
        went_well(unary_at(ts, pos, errs)),
        agree(ts, pos, ts2, q, unary_at(ts, pos, errs).pos - pos),
        ts2[q + (unary_at(ts, pos, errs).pos - pos)].token_type != TokenType::LeftParen,
    ensures
        reads_back(unary_at(ts, pos, errs), pos, unary_at(ts2, q, errs2), q, errs2),
    decreases ts.len() - pos, 8int,
{
    let r = unary_at(ts, pos, errs);
    let n = r.pos - pos;
    lemma_unary_bounds(ts, pos, errs);
    lemma_unary_step(ts, pos, errs);
    lemma_unary_step(ts2, q, errs2);
    lemma_well_scanned_at(ts, pos);
    lemma_agree_next(ts, pos, ts2, q, n);
    lemma_agree_at(ts, pos, ts2, q, n, 0);
    if negates(ts, pos) {
        lemma_unary_bounds(ts, pos + 1, errs);
        lemma_agree_part(ts, pos, ts2, q, n, 1, n - 1);
        lemma_unary_back(ts, pos + 1, errs, ts2, q + 1, errs2);
        let right = unary_at(ts, pos + 1, errs).value->0;
        let right2 = unary_at(ts2, q + 1, errs2).value->0;
        lemma_placeless_node(0, right, ts[pos], right, right2, ts2[q], right2);
    } else {
        lemma_call_back(ts, pos, errs, ts2, q, errs2);
    }
}

/// [`lemma_expression_back`], of a call.
pub proof fn lemma_call_back(
    ts: Seq<TokenView>,
    pos: int,
    errs: Seq<ErrorView>,
    ts2: Seq<TokenView>,
    q: int,
    errs2: Seq<ErrorView>,
)
    requires
        well_scanned(ts),
        0 <= pos < ts.len(),
        went_well(call_at(ts, pos, errs)),
        agree(ts, pos, ts2, q, call_at(ts, pos, errs).pos - pos),
        ts2[q + (call_at(ts, pos, errs).pos - pos)].token_type != TokenType::LeftParen,
    ensures
        reads_back(call_at(ts, pos, errs), pos, call_at(ts2, q, errs2), q, errs2),
    decreases ts.len() - pos, 7int,
{
    let r = call_at(ts, pos, errs);
    let n = r.pos - pos;
    lemma_call_bounds(ts, pos, errs);
    lemma_call_step(ts, pos, errs);
    lemma_call_step(ts2, q, errs2);
    let callee = primary_at(ts, pos, errs);
    lemma_call_rest_bounds(ts, callee.value->0, callee.pos, callee.errors);
    lemma_primary_bounds(ts, pos, errs);
    let n1 = callee.pos - pos;
    lemma_agree_next(ts, pos, ts2, q, n);
    lemma_agree_part(ts, pos, ts2, q, n, 0, n1);
    lemma_agree_part(ts, pos, ts2, q, n, n1, n - n1);
    lemma_primary_back(ts, pos, errs, ts2, q, errs2);
    let callee2 = primary_at(ts2, q, errs2);
    lemma_call_rest_back(
        ts,
        callee.value->0,
        callee.pos,
        callee.errors,
        ts2,
        callee2.value->0,
        q + n1,
        errs2,
    );
}

/// [`lemma_expression_back`], of the argument lists behind the expression
/// `callee`.
pub proof fn lemma_call_rest_back(
    ts: Seq<TokenView>,
    callee: ExpressionView,
    pos: int,
    errs: Seq<ErrorView>,
    ts2: Seq<TokenView>,
    callee2: ExpressionView,
    q: int,
    errs2: Seq<ErrorView>,
)
    requires
        well_scanned(ts),
        0 <= pos <= ts.len(),
        went_well(call_rest_at(ts, callee, pos, errs)),
        agree(ts, pos, ts2, q, call_rest_at(ts, callee, pos, errs).pos - pos),
        ts2[q + (call_rest_at(ts, callee, pos, errs).pos - pos)].token_type
            != TokenType::LeftParen,
        placeless_expression(callee2) == placeless_expression(callee),
    ensures
        reads_back(
            call_rest_at(ts, callee, pos, errs),
            pos,
            call_rest_at(ts2, callee2, q, errs2),
            q,
            errs2,
        ),
    decreases ts.len() - pos, 6int,
{
    let r = call_rest_at(ts, callee, pos, errs);
    let n = r.pos - pos;
    lemma_call_rest_bounds(ts, callee, pos, errs);
    lemma_call_rest_step(ts, callee, pos, errs);
    lemma_call_rest_step(ts2, callee2, q, errs2);
    lemma_agree_next(ts, pos, ts2, q, n);
    if check(ts, pos, TokenType::LeftParen) {
        lemma_well_scanned_at(ts, pos);
        let call = finish_call_at(ts, callee, pos + 1, errs);
        lemma_call_rest_bounds(ts, call.value->0, call.pos, call.errors);
        lemma_finish_call_bounds(ts, callee, pos + 1, errs);
        let n1 = call.pos - pos;
        lemma_agree_at(ts, pos, ts2, q, n, 0);
        lemma_agree_part(ts, pos, ts2, q, n, 1, n1 - 1);
        lemma_agree_part(ts, pos, ts2, q, n, n1, n - n1);
        lemma_finish_call_back(ts, callee, pos + 1, errs, ts2, callee2, q + 1, errs2);
        let call2 = finish_call_at(ts2, callee2, q + 1, errs2);
        lemma_call_rest_back(
            ts,
            call.value->0,
            call.pos,
            call.errors,
            ts2,
            call2.value->0,
            q + n1,
            errs2,
        );
    }
}

/// [`lemma_expression_back`], of an argument list and its closing
/// parenthesis.
pub proof fn lemma_finish_call_back(
    ts: Seq<TokenView>,
    callee: ExpressionView,
    pos: int,
    errs: Seq<ErrorView>,
    ts2: Seq<TokenView>,
    callee2: ExpressionView,
    q: int,
    errs2: Seq<ErrorView>,
)
    requires
        well_scanned(ts),
        0 <= pos < ts.len(),
        went_well(finish_call_at(ts, callee, pos, errs)),
        agree(ts, pos, ts2, q, finish_call_at(ts, callee, pos, errs).pos - pos),
        placeless_expression(callee2) == placeless_expression(callee),
    ensures
        reads_back(
            finish_call_at(ts, callee, pos, errs),
            pos,
            finish_call_at(ts2, callee2, q, errs2),
            q,
            errs2,
        ),
    decreases ts.len() - pos, 24int,
{
    let r = finish_call_at(ts, callee, pos, errs);
    let n = r.pos - pos;
    let empty = Seq::<ExpressionView>::empty();
    lemma_finish_call_bounds(ts, callee, pos, errs);
    lemma_finish_call_step(ts, callee, pos, errs);
    lemma_finish_call_step(ts2, callee2, q, errs2);
    lemma_well_scanned_at(ts, pos);
    lemma_agree_next(ts, pos, ts2, q, n);
    lemma_agree_at(ts, pos, ts2, q, n, 0);
    if check(ts, pos, TokenType::RightParen) {
        lemma_placeless_call(callee, ts[pos], empty, callee2, ts2[q], empty);
    } else {
        let list = arguments_at(ts, empty, pos, errs);
        lemma_arguments_bounds(ts, empty, pos, errs);
        let n1 = list.pos - pos;
        lemma_agree_at(ts, pos, ts2, q, n, n1);
        lemma_agree_part(ts, pos, ts2, q, n, 0, n1);
        lemma_arguments_back(ts, empty, pos, errs, ts2, empty, q, errs2);
        let list2 = arguments_at(ts2, empty, q, errs2);
        lemma_placeless_call(
            callee,
            ts[list.pos],
            list.value->0,
            callee2,
            ts2[list2.pos],
            list2.value->0,
        );
    }
}

/// [`lemma_expression_back`], of the arguments behind those of `list`.
pub proof fn lemma_arguments_back(
    ts: Seq<TokenView>,
    list: Seq<ExpressionView>,
    pos: int,
    errs: Seq<ErrorView>,
    ts2: Seq<TokenView>,
    list2: Seq<ExpressionView>,
    q: int,
    errs2: Seq<ErrorView>,
)
    requires
        well_scanned(ts),
        0 <= pos < ts.len(),
        went_well(arguments_at(ts, list, pos, errs)),
        agree(ts, pos, ts2, q, arguments_at(ts, list, pos, errs).pos - pos),
        ts2[q + (arguments_at(ts, list, pos, errs).pos - pos)].token_type
            == TokenType::RightParen,
        placeless_expressions(list2) == placeless_expressions(list),
    ensures
        reads_back_list(
            arguments_at(ts, list, pos, errs),
            pos,
            arguments_at(ts2, list2, q, errs2),
            q,
            errs2,
        ),
    decreases ts.len() - pos, 23int,
{
    let r = arguments_at(ts, list, pos, errs);
    let n = r.pos - pos;
    lemma_arguments_bounds(ts, list, pos, errs);
    lemma_placeless_same_length(list, list2);
    lemma_arguments_step(ts, list, pos, errs);
    lemma_arguments_step(ts2, list2, q, errs2);
    let argument = expression_at(ts, pos, errs);
    let a = argument.value->0;
    let n1 = argument.pos - pos;
    lemma_agree_next(ts, pos, ts2, q, n);
    let a2 = expression_at(ts2, q, errs2).value->0;
    if check(ts, argument.pos, TokenType::Comma) {
        lemma_well_scanned_at(ts, argument.pos);
        lemma_arguments_bounds(ts, list.push(a), argument.pos + 1, argument.errors);
        lemma_expression_bounds(ts, pos, errs);
        lemma_agree_part(ts, pos, ts2, q, n, 0, n1);
        lemma_agree_at(ts, pos, ts2, q, n, n1);
        lemma_agree_part(ts, pos, ts2, q, n, n1 + 1, n - n1 - 1);
        lemma_expression_back(ts, pos, errs, ts2, q, errs2);
        lemma_placeless_push(list, a, list2, a2);
        lemma_arguments_back(
            ts,
            list.push(a),
            argument.pos + 1,
            argument.errors,
            ts2,
            list2.push(a2),
            q + n1 + 1,
            errs2,
        );
    } else {
        lemma_expression_bounds(ts, pos, errs);
        lemma_expression_back(ts, pos, errs, ts2, q, errs2);
        lemma_placeless_push(list, a, list2, a2);
    }
}

/// [`lemma_expression_back`], of a primary expression.
pub proof fn lemma_primary_back(
    ts: Seq<TokenView>,
    pos: int,
    errs: Seq<ErrorView>,
    ts2: Seq<TokenView>,
    q: int,
    errs2: Seq<ErrorView>,
)
    requires
        well_scanned(ts),
        0 <= pos < ts.len(),
        went_well(primary_at(ts, pos, errs)),
        agree(ts, pos, ts2, q, primary_at(ts, pos, errs).pos - pos),
    ensures
        reads_back(primary_at(ts, pos, errs), pos, primary_at(ts2, q, errs2), q, errs2),
    decreases ts.len() - pos, 5int,
{
    let r = primary_at(ts, pos, errs);
    let n = r.pos - pos;
    lemma_primary_bounds(ts, pos, errs);
    lemma_agree_next(ts, pos, ts2, q, n);
    lemma_agree_at(ts, pos, ts2, q, n, 0);
    if check(ts, pos, TokenType::LeftParen) {
        lemma_well_scanned_at(ts, pos);
        lemma_group_step(ts, pos, errs);
        lemma_group_step(ts2, q, errs2);
        let inner = expression_at(ts, pos + 1, errs);
        lemma_expression_bounds(ts, pos + 1, errs);
        let m = inner.pos - pos;
        lemma_agree_at(ts, pos, ts2, q, n, m);
        lemma_agree_part(ts, pos, ts2, q, n, 1, m - 1);
        lemma_expression_back(ts, pos + 1, errs, ts2, q + 1, errs2);
        let e = inner.value->0;
        let e2 = expression_at(ts2, q + 1, errs2).value->0;
        lemma_placeless_node(0, e, ts[pos], e, e2, ts2[q], e2);
    } else {
        lemma_token_back(ts, pos, errs, ts2, q, errs2);
    }
}

} // verus!
