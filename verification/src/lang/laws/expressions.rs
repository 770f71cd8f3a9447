//! What holds of every parse: the tokens that an expression was read from
//! can be read off its tree, and a tree that is written out and read again
//! is the same tree.

use vstd::prelude::*;
use vstd::string::*;
use crate::lang::errors::ErrorView;
use crate::lang::grammar::{
    at_end,
    binary_levels,
    binary_node,
    check,
    done,
    forward,
    is_operator,
    limit_checked,
    parse_arguments,
    parse_assignment,
    parse_binary,
    parse_binary_rest,
    parse_call,
    parse_call_rest,
    parse_expression,
    parse_finish_call,
    parse_primary,
    parse_unary,
    Parsed,
};
use crate::lang::lexer::{
    literal_of,
    operator,
    punctuation,
    terminated,
    TokenType,
    TokenView,
};
use crate::lang::laws::scanning::{fixed_lexeme, kind_of, lemma_quote_index_run, single_token};
use crate::lang::parser::ExpressionView;
use crate::lang::rendering::{
    argument_tokens,
    expression_tokens,
    fixed_token,
    literal_token,
    placeless,
    placeless_expression,
    placeless_expressions,
};

verus! {

// ---------------------------------------------------------------------------
// Tokens as the scanner makes them
// ---------------------------------------------------------------------------

/// Whether the token `t` is as the scanner makes it: its lexeme is one
/// token of its kind, and its literal is what the lexeme denotes.
#[verifier::opaque]
pub open spec fn scannable(t: TokenView) -> bool {
    &&& single_token(t.lexeme)
    &&& kind_of(t.lexeme) == t.token_type
    &&& t.literal == literal_of(t.token_type, t.lexeme)
}

/// Whether the tokens `ts` are as the scanner makes them: the end token is
/// the last one, and every other token is [`scannable`] and no end token.
#[verifier::opaque]
pub open spec fn well_scanned(ts: Seq<TokenView>) -> bool {
    &&& terminated(ts)
    &&& forall|i: int|
        0 <= i < ts.len() - 1 ==> (#[trigger] ts[i]).token_type != TokenType::Eof && scannable(
            ts[i],
        )
}

/// What [`well_scanned`] says of the token at `i`.
pub proof fn lemma_well_scanned_at(ts: Seq<TokenView>, i: int)
    requires
        well_scanned(ts),
        0 <= i < ts.len(),
    ensures
        terminated(ts),
        ts[i].token_type != TokenType::Eof <==> i + 1 < ts.len(),
        ts[i].token_type != TokenType::Eof ==> scannable(ts[i]),
{
    reveal(well_scanned);
}

/// A scanned token of a kind that is written in one way is written so.
pub proof fn lemma_fixed_kind_is_fixed_token(t: TokenView)
    requires
        scannable(t),
        fixed_lexeme(t.token_type) is Some,
    ensures
        placeless(t) == fixed_token(t.token_type),
{
    reveal(scannable);
    reveal_strlit("(");
    reveal_strlit(")");
    reveal_strlit("{");
    reveal_strlit("}");
    reveal_strlit(",");
    reveal_strlit(".");
    reveal_strlit("-");
    reveal_strlit("+");
    reveal_strlit(";");
    reveal_strlit("/");
    reveal_strlit("*");
    reveal_strlit("!");
    reveal_strlit("!=");
    reveal_strlit("=");
    reveal_strlit("==");
    reveal_strlit(">");
    reveal_strlit(">=");
    reveal_strlit("<");
    reveal_strlit("<=");
    let w = t.lexeme;
    let c = w[0];
    if punctuation(c) is Some {
        assert(w =~= fixed_lexeme(t.token_type)->0);
    } else if operator(c, false) is Some {
        assert(w =~= fixed_lexeme(t.token_type)->0);
    } else if c == '"' {
    } else {
        assert(w.subrange(0, w.len() as int) =~= w);
    }
}

/// A scanned literal is written as [`literal_token`] writes its value.
pub proof fn lemma_literal_is_literal_token(t: TokenView)
    requires
        scannable(t),
        t.token_type == TokenType::Number || t.token_type == TokenType::String,
    ensures
        t.literal is Some,
        placeless(t) == literal_token(t.literal->0),
{
    reveal(scannable);
    let w = t.lexeme;
    if t.token_type == TokenType::String {
        lemma_quote_index_run(w, 1);
        assert(w =~= seq!['"'] + w.subrange(1, w.len() - 1) + seq!['"']);
    }
}

// ---------------------------------------------------------------------------
// Two token sequences that hold the same tokens in two places
// ---------------------------------------------------------------------------

/// Whether `ts2` holds at `q + k` the token that `ts` holds at `pos + k`,
/// but for its place.
pub open spec fn same_token(
    ts: Seq<TokenView>,
    pos: int,
    ts2: Seq<TokenView>,
    q: int,
    k: int,
) -> bool {
    placeless(ts2[q + k]) == placeless(ts[pos + k])
}

/// Whether `ts2` holds from `q` on the `n` tokens that `ts` holds from
/// `pos` on, but for their places, and at least one token more.
#[verifier::opaque]
pub open spec fn agree(ts: Seq<TokenView>, pos: int, ts2: Seq<TokenView>, q: int, n: int) -> bool {
    &&& 0 <= q
    &&& q + n < ts2.len()
    &&& forall|k: int| 0 <= k < n ==> #[trigger] same_token(ts, pos, ts2, q, k)
}

/// The tokens of `ts` from `from` up to `to`, without their places.
#[verifier::opaque]
pub open spec fn segment(ts: Seq<TokenView>, from: int, to: int) -> Seq<TokenView> {
    Seq::new((to - from) as nat, |k: int| placeless(ts[from + k]))
}

/// Part of an agreement is an agreement.
pub proof fn lemma_agree_part(
    ts: Seq<TokenView>,
    pos: int,
    ts2: Seq<TokenView>,
    q: int,
    n: int,
    a: int,
    m: int,
)
    requires
        agree(ts, pos, ts2, q, n),
        0 <= a,
        0 <= m,
        a + m <= n,
    ensures
        agree(ts, pos + a, ts2, q + a, m),
{
    reveal(agree);
    assert forall|k: int| 0 <= k < m implies #[trigger] same_token(ts, pos + a, ts2, q + a, k) by {
        assert(same_token(ts, pos, ts2, q, a + k));
    }
}

/// Where two sequences agree, they hold tokens of the same kind, lexeme
/// and literal.
pub proof fn lemma_agree_at(
    ts: Seq<TokenView>,
    pos: int,
    ts2: Seq<TokenView>,
    q: int,
    n: int,
    k: int,
)
    requires
        agree(ts, pos, ts2, q, n),
        0 <= k < n,
    ensures
        placeless(ts2[q + k]) == placeless(ts[pos + k]),
        ts2[q + k].token_type == ts[pos + k].token_type,
        ts2[q + k].literal == ts[pos + k].literal,
        0 <= q + k < ts2.len(),
{
    reveal(agree);
    assert(same_token(ts, pos, ts2, q, k));
}

/// Where two sequences agree, the second holds one token more.
pub proof fn lemma_agree_next(ts: Seq<TokenView>, pos: int, ts2: Seq<TokenView>, q: int, n: int)
    requires
        agree(ts, pos, ts2, q, n),
        0 <= n,
    ensures
        0 <= q + n < ts2.len(),
{
    reveal(agree);
}

/// A segment is made of its parts.
pub proof fn lemma_segment_parts(ts: Seq<TokenView>, a: int, b: int, c: int)
    requires
        a <= b <= c,
    ensures
        segment(ts, a, c) == segment(ts, a, b) + segment(ts, b, c),
        segment(ts, a, c).len() == c - a,
{
    reveal(segment);
    assert(segment(ts, a, c) =~= segment(ts, a, b) + segment(ts, b, c));
}

/// A segment of one token, and one of none.
pub proof fn lemma_segment_one(ts: Seq<TokenView>, a: int)
    ensures
        segment(ts, a, a + 1) == seq![placeless(ts[a])],
        segment(ts, a, a) == Seq::<TokenView>::empty(),
{
    reveal(segment);
    assert(segment(ts, a, a + 1) =~= seq![placeless(ts[a])]);
    assert(segment(ts, a, a) =~= Seq::<TokenView>::empty());
}

// ---------------------------------------------------------------------------
// What may follow an expression
// ---------------------------------------------------------------------------

/// The level of a binary operator, and -1 for every other kind.
pub open spec fn operator_level(kind: TokenType) -> int {
    match kind {
        TokenType::Or => 0,
        TokenType::And => 1,
        TokenType::BangEqual => 2,
        TokenType::EqualEqual => 2,
        TokenType::Greater => 3,
        TokenType::GreaterEqual => 3,
        TokenType::Less => 3,
        TokenType::LessEqual => 3,
        TokenType::Minus => 4,
        TokenType::Plus => 4,
        TokenType::Slash => 5,
        TokenType::Star => 5,
        _ => -1,
    }
}

/// Whether an expression of level `level` ends before a token of kind
/// `kind`: the token begins no argument list and is no operator of that
/// level or a tighter one.
pub open spec fn stops(level: int, kind: TokenType) -> bool {
    kind != TokenType::LeftParen && operator_level(kind) < level
}

/// Whether a whole expression ends before a token of kind `kind`.
pub open spec fn stops_expression(kind: TokenType) -> bool {
    stops(0, kind) && kind != TokenType::Equal
}

/// The kinds of token that begin an expression.
pub open spec fn starts_expression(kind: TokenType) -> bool {
    kind == TokenType::False || kind == TokenType::True || kind == TokenType::Nil || kind
        == TokenType::Number || kind == TokenType::String || kind == TokenType::Identifier || kind
        == TokenType::LeftParen || kind == TokenType::Bang || kind == TokenType::Minus
}

/// Whether `r2` is `r` read again at `q`: it found an expression that
/// differs from that of `r` in places only, read as many tokens, and
/// recorded nothing.
pub open spec fn reads_back(
    r: Parsed<ExpressionView>,
    pos: int,
    r2: Parsed<ExpressionView>,
    q: int,
    errs2: Seq<ErrorView>,
) -> bool {
    &&& r2.value is Some
    &&& r2.pos == q + (r.pos - pos)
    &&& r2.errors == errs2
    &&& placeless_expression(r2.value->0) == placeless_expression(r.value->0)
}

/// Whether the list `r2` is the list `r` read again at `q`.
pub open spec fn reads_back_list(
    r: Parsed<Seq<ExpressionView>>,
    pos: int,
    r2: Parsed<Seq<ExpressionView>>,
    q: int,
    errs2: Seq<ErrorView>,
) -> bool {
    &&& r2.value is Some
    &&& r2.pos == q + (r.pos - pos)
    &&& r2.errors == errs2
    &&& placeless_expressions(r2.value->0) == placeless_expressions(r.value->0)
}

/// Whether the parse `r` went well: it found a value and no diagnostic was
/// recorded.
pub open spec fn went_well<T>(r: Parsed<T>) -> bool {
    r.value is Some && r.errors.len() == 0
}

// ---------------------------------------------------------------------------
// Expressions are written by the tokens they were read from
// ---------------------------------------------------------------------------

/// An expression that parses was read from at least one token, before the
/// end token; no diagnostic was recorded before it; and the tokens that
/// write it are the tokens it was read from.
pub proof fn lemma_expression_tokens(ts: Seq<TokenView>, pos: int, errs: Seq<ErrorView>)
    requires
        well_scanned(ts),
        0 <= pos < ts.len(),
        went_well(parse_expression(ts, pos, errs)),
    ensures
        errs.len() == 0,
        pos < parse_expression(ts, pos, errs).pos < ts.len(),
        starts_expression(ts[pos].token_type),
        expression_tokens(parse_expression(ts, pos, errs).value->0) == segment(
            ts,
            pos,
            parse_expression(ts, pos, errs).pos,
        ),
    decreases ts.len() - pos, 22int,
{
    lemma_assignment_tokens(ts, pos, errs);
}

/// [`lemma_expression_tokens`], of an assignment.
pub proof fn lemma_assignment_tokens(ts: Seq<TokenView>, pos: int, errs: Seq<ErrorView>)
    requires
        well_scanned(ts),
        0 <= pos < ts.len(),
        went_well(parse_assignment(ts, pos, errs)),
    ensures
        errs.len() == 0,
        pos < parse_assignment(ts, pos, errs).pos < ts.len(),
        starts_expression(ts[pos].token_type),
        expression_tokens(parse_assignment(ts, pos, errs).value->0) == segment(
            ts,
            pos,
            parse_assignment(ts, pos, errs).pos,
        ),
        check(ts, parse_binary(ts, 0, pos, errs).pos, TokenType::Equal) ==> parse_binary(
            ts,
            0,
            pos,
            errs,
        ).pos == pos + 1,
    decreases ts.len() - pos, 21int,
{
    let r = parse_assignment(ts, pos, errs);
    let target = forward(ts, parse_binary(ts, 0, pos, errs), pos);
    assert(target == parse_binary(ts, 0, pos, errs));
    let left = target.value->0;
    if check(ts, target.pos, TokenType::Equal) {
        lemma_well_scanned_at(ts, target.pos);
        let value = parse_assignment(ts, target.pos + 1, target.errors);
        assert(went_well(value));
        assert(r.pos == value.pos);
        lemma_assignment_tokens(ts, target.pos + 1, target.errors);
        lemma_binary_tokens(ts, 0, pos, errs);
        assert(left is Variable);
        let name = left->Variable_0;
        lemma_fixed_kind_is_fixed_token(ts[target.pos]);
        assert(expression_tokens(left) =~= seq![placeless(name)]);
        lemma_segment_parts(ts, pos, target.pos, target.pos);
        assert(target.pos == pos + 1);
        lemma_segment_one(ts, pos);
        assert(seq![placeless(name)][0] == seq![placeless(ts[pos])][0]);
        lemma_segment_one(ts, target.pos);
        lemma_segment_parts(ts, pos, target.pos, r.pos);
        lemma_segment_parts(ts, target.pos, target.pos + 1, r.pos);
        assert(expression_tokens(r.value->0) =~= segment(ts, pos, r.pos));
    } else {
        lemma_binary_tokens(ts, 0, pos, errs);
    }
}

/// [`lemma_expression_tokens`], of a chain of binary operators.
pub proof fn lemma_binary_tokens(ts: Seq<TokenView>, level: int, pos: int, errs: Seq<ErrorView>)
    requires
        well_scanned(ts),
        0 <= pos < ts.len(),
        went_well(parse_binary(ts, level, pos, errs)),
    ensures
        0 <= level < binary_levels(),
        errs.len() == 0,
        pos < parse_binary(ts, level, pos, errs).pos < ts.len(),
        starts_expression(ts[pos].token_type),
        expression_tokens(parse_binary(ts, level, pos, errs).value->0) == segment(
            ts,
            pos,
            parse_binary(ts, level, pos, errs).pos,
        ),
    decreases ts.len() - pos, 20 - 2 * level,
{
    let r = parse_binary(ts, level, pos, errs);
    let first = forward(ts, operand(ts, level, pos, errs), pos);
    assert(first == operand(ts, level, pos, errs));
    let left = first.value->0;
    assert(r == parse_binary_rest(ts, level, left, first.pos, first.errors));
    lemma_binary_rest_tokens(ts, level, left, first.pos, first.errors);
    lemma_operand_tokens(ts, level, pos, errs);
    lemma_segment_parts(ts, pos, first.pos, r.pos);
}

/// The operand of an operator of level `level`.
pub open spec fn operand(ts: Seq<TokenView>, level: int, pos: int, errs: Seq<ErrorView>) -> Parsed<
    ExpressionView,
> {
    if level + 1 < binary_levels() {
        parse_binary(ts, level + 1, pos, errs)
    } else {
        parse_unary(ts, pos, errs)
    }
}

/// [`lemma_expression_tokens`], of an operand.
pub proof fn lemma_operand_tokens(ts: Seq<TokenView>, level: int, pos: int, errs: Seq<ErrorView>)
    requires
        well_scanned(ts),
        0 <= pos < ts.len(),
        0 <= level < binary_levels(),
        went_well(operand(ts, level, pos, errs)),
    ensures
        errs.len() == 0,
        pos < operand(ts, level, pos, errs).pos < ts.len(),
        starts_expression(ts[pos].token_type),
        expression_tokens(operand(ts, level, pos, errs).value->0) == segment(
            ts,
            pos,
            operand(ts, level, pos, errs).pos,
        ),
    decreases ts.len() - pos, 19 - 2 * level,
{
    if level + 1 < binary_levels() {
        lemma_binary_tokens(ts, level + 1, pos, errs);
    } else {
        lemma_unary_tokens(ts, pos, errs);
    }
}

/// [`lemma_expression_tokens`], of the rest of a chain behind the operands
/// that make up `left`.
pub proof fn lemma_binary_rest_tokens(
    ts: Seq<TokenView>,
    level: int,
    left: ExpressionView,
    pos: int,
    errs: Seq<ErrorView>,
)
    requires
        well_scanned(ts),
        0 <= pos <= ts.len(),
        went_well(parse_binary_rest(ts, level, left, pos, errs)),
    ensures
        errs.len() == 0,
        pos <= parse_binary_rest(ts, level, left, pos, errs).pos <= ts.len(),
        pos < ts.len() ==> parse_binary_rest(ts, level, left, pos, errs).pos < ts.len(),
        expression_tokens(parse_binary_rest(ts, level, left, pos, errs).value->0)
            == expression_tokens(left) + segment(
            ts,
            pos,
            parse_binary_rest(ts, level, left, pos, errs).pos,
        ),
    decreases ts.len() - pos, 18 - 2 * level,
{
    let r = parse_binary_rest(ts, level, left, pos, errs);
    if 0 <= level < binary_levels() && !at_end(ts, pos) && is_operator(
        level,
        ts[pos].token_type,
    ) {
        lemma_well_scanned_at(ts, pos);
        let right = forward(ts, operand(ts, level, pos + 1, errs), pos + 1);
        assert(right == operand(ts, level, pos + 1, errs));
        let node = binary_node(level, left, ts[pos], right.value->0);
        assert(r == parse_binary_rest(ts, level, node, right.pos, right.errors));
        lemma_binary_rest_tokens(ts, level, node, right.pos, right.errors);
        lemma_operand_tokens(ts, level, pos + 1, errs);
        assert(expression_tokens(node) =~= expression_tokens(left) + seq![placeless(ts[pos])]
            + expression_tokens(right.value->0));
        lemma_segment_one(ts, pos);
        lemma_segment_parts(ts, pos, pos + 1, r.pos);
        lemma_segment_parts(ts, pos + 1, right.pos, r.pos);
        assert(expression_tokens(r.value->0) =~= expression_tokens(left) + segment(ts, pos, r.pos));
    } else {
        assert(r == done(left, pos, errs));
        lemma_segment_one(ts, pos);
        assert(expression_tokens(left) + segment(ts, pos, pos) =~= expression_tokens(left));
    }
}

/// [`lemma_expression_tokens`], of a unary expression.
pub proof fn lemma_unary_tokens(ts: Seq<TokenView>, pos: int, errs: Seq<ErrorView>)
    requires
        well_scanned(ts),
        0 <= pos < ts.len(),
        went_well(parse_unary(ts, pos, errs)),
    ensures
        errs.len() == 0,
        pos < parse_unary(ts, pos, errs).pos < ts.len(),
        starts_expression(ts[pos].token_type),
        expression_tokens(parse_unary(ts, pos, errs).value->0) == segment(
            ts,
            pos,
            parse_unary(ts, pos, errs).pos,
        ),
    decreases ts.len() - pos, 8int,
{
    let r = parse_unary(ts, pos, errs);
    lemma_well_scanned_at(ts, pos);
    if check(ts, pos, TokenType::Bang) || check(ts, pos, TokenType::Minus) {
        lemma_unary_tokens(ts, pos + 1, errs);
        lemma_segment_one(ts, pos);
        lemma_segment_parts(ts, pos, pos + 1, r.pos);
        assert(expression_tokens(r.value->0) =~= segment(ts, pos, r.pos));
    } else {
        lemma_call_tokens(ts, pos, errs);
    }
}

/// [`lemma_expression_tokens`], of a call.
pub proof fn lemma_call_tokens(ts: Seq<TokenView>, pos: int, errs: Seq<ErrorView>)
    requires
        well_scanned(ts),
        0 <= pos < ts.len(),
        went_well(parse_call(ts, pos, errs)),
    ensures
        errs.len() == 0,
        pos < parse_call(ts, pos, errs).pos < ts.len(),
        starts_expression(ts[pos].token_type),
        ts[pos].token_type != TokenType::Bang && ts[pos].token_type != TokenType::Minus,
        expression_tokens(parse_call(ts, pos, errs).value->0) == segment(
            ts,
            pos,
            parse_call(ts, pos, errs).pos,
        ),
    decreases ts.len() - pos, 7int,
{
    let r = parse_call(ts, pos, errs);
    let callee = forward(ts, parse_primary(ts, pos, errs), pos);
    assert(callee == parse_primary(ts, pos, errs));
    assert(r == parse_call_rest(ts, callee.value->0, callee.pos, callee.errors));
    lemma_call_rest_tokens(ts, callee.value->0, callee.pos, callee.errors);
    lemma_primary_tokens(ts, pos, errs);
    lemma_segment_parts(ts, pos, callee.pos, r.pos);
}

/// [`lemma_expression_tokens`], of the argument lists behind the
/// expression `callee`.
pub proof fn lemma_call_rest_tokens(
    ts: Seq<TokenView>,
    callee: ExpressionView,
    pos: int,
    errs: Seq<ErrorView>,
)
    requires
        well_scanned(ts),
        0 <= pos <= ts.len(),
        went_well(parse_call_rest(ts, callee, pos, errs)),
    ensures
        errs.len() == 0,
        pos <= parse_call_rest(ts, callee, pos, errs).pos <= ts.len(),
        pos < ts.len() ==> parse_call_rest(ts, callee, pos, errs).pos < ts.len(),
        expression_tokens(parse_call_rest(ts, callee, pos, errs).value->0) == expression_tokens(
            callee,
        ) + segment(ts, pos, parse_call_rest(ts, callee, pos, errs).pos),
    decreases ts.len() - pos, 6int,
{
    let r = parse_call_rest(ts, callee, pos, errs);
    if check(ts, pos, TokenType::LeftParen) {
        lemma_well_scanned_at(ts, pos);
        let call = forward(ts, parse_finish_call(ts, callee, pos + 1, errs), pos + 1);
        assert(call == parse_finish_call(ts, callee, pos + 1, errs));
        assert(r == parse_call_rest(ts, call.value->0, call.pos, call.errors));
        lemma_call_rest_tokens(ts, call.value->0, call.pos, call.errors);
        lemma_finish_call_tokens(ts, callee, pos + 1, errs);
        lemma_fixed_kind_is_fixed_token(ts[pos]);
        lemma_segment_one(ts, pos);
        lemma_segment_parts(ts, pos, pos + 1, r.pos);
        lemma_segment_parts(ts, pos + 1, call.pos, r.pos);
        assert(expression_tokens(r.value->0) =~= expression_tokens(callee) + segment(
            ts,
            pos,
            r.pos,
        ));
    } else {
        lemma_segment_one(ts, pos);
        assert(expression_tokens(callee) + segment(ts, pos, pos) =~= expression_tokens(callee));
    }
}

/// The tokens that write a call.
proof fn lemma_call_is_written(
    callee: ExpressionView,
    parenthesis: TokenView,
    arguments: Seq<ExpressionView>,
)
    ensures
        expression_tokens(
            ExpressionView::Call { callee: Box::new(callee), parenthesis, arguments },
        ) == expression_tokens(callee) + seq![fixed_token(TokenType::LeftParen)] + argument_tokens(
            arguments,
            0,
        ) + seq![placeless(parenthesis)],
{
}

/// [`lemma_expression_tokens`], of an argument list and its closing
/// parenthesis.
pub proof fn lemma_finish_call_tokens(
    ts: Seq<TokenView>,
    callee: ExpressionView,
    pos: int,
    errs: Seq<ErrorView>,
)
    requires
        well_scanned(ts),
        0 <= pos < ts.len(),
        went_well(parse_finish_call(ts, callee, pos, errs)),
    ensures
        errs.len() == 0,
        pos < parse_finish_call(ts, callee, pos, errs).pos < ts.len(),
        expression_tokens(parse_finish_call(ts, callee, pos, errs).value->0) == expression_tokens(
            callee,
        ) + seq![fixed_token(TokenType::LeftParen)] + segment(
            ts,
            pos,
            parse_finish_call(ts, callee, pos, errs).pos,
        ),
    decreases ts.len() - pos, 24int,
{
    let r = parse_finish_call(ts, callee, pos, errs);
    let empty = Seq::<ExpressionView>::empty();
    lemma_well_scanned_at(ts, pos);
    if check(ts, pos, TokenType::RightParen) {
        assert(r == done(
            ExpressionView::Call { callee: Box::new(callee), parenthesis: ts[pos], arguments: empty },
            pos + 1,
            errs,
        ));
        lemma_call_is_written(callee, ts[pos], empty);
        lemma_segment_one(ts, pos);
        assert(argument_tokens(empty, 0) =~= Seq::<TokenView>::empty());
        assert(expression_tokens(r.value->0) =~= expression_tokens(callee) + seq![
            fixed_token(TokenType::LeftParen),
        ] + segment(ts, pos, r.pos));
    } else {
        let list = parse_arguments(ts, empty, pos, errs);
        assert(went_well(list));
        let arguments = list.value->0;
        assert(check(ts, list.pos, TokenType::RightParen));
        assert(r == done(
            ExpressionView::Call {
                callee: Box::new(callee),
                parenthesis: ts[list.pos],
                arguments,
            },
            list.pos + 1,
            list.errors,
        ));
        lemma_arguments_tokens(ts, empty, pos, errs);
        lemma_call_is_written(callee, ts[list.pos], arguments);
        lemma_segment_one(ts, list.pos);
        lemma_segment_parts(ts, pos, list.pos, r.pos);
        assert(expression_tokens(r.value->0) =~= expression_tokens(callee) + seq![
            fixed_token(TokenType::LeftParen),
        ] + segment(ts, pos, r.pos));
    }
}

/// [`lemma_expression_tokens`], of the arguments behind those of `list`:
/// the list that is found begins with `list` and is longer.
pub proof fn lemma_arguments_tokens(
    ts: Seq<TokenView>,
    list: Seq<ExpressionView>,
    pos: int,
    errs: Seq<ErrorView>,
)
    requires
        well_scanned(ts),
        0 <= pos < ts.len(),
        went_well(parse_arguments(ts, list, pos, errs)),
    ensures
        errs.len() == 0,
        list.len() < 255,
        pos < parse_arguments(ts, list, pos, errs).pos < ts.len(),
        parse_arguments(ts, list, pos, errs).value->0.len() > list.len(),
        parse_arguments(ts, list, pos, errs).value->0.subrange(0, list.len() as int) == list,
        argument_tokens(parse_arguments(ts, list, pos, errs).value->0, list.len() as int)
            == segment(ts, pos, parse_arguments(ts, list, pos, errs).pos),
    decreases ts.len() - pos, 23int,
{
    let r = parse_arguments(ts, list, pos, errs);
    let message = "Cannot have more than 255 arguments."@;
    let checked = limit_checked(errs, list.len(), 255, ts[pos], message);
    let argument = forward(ts, parse_expression(ts, pos, checked), pos);
    assert(argument == parse_expression(ts, pos, checked));
    let a = argument.value->0;
    let full = r.value->0;
    let n = list.len() as int;
    if check(ts, argument.pos, TokenType::Comma) {
        lemma_well_scanned_at(ts, argument.pos);
        assert(r == parse_arguments(ts, list.push(a), argument.pos + 1, argument.errors));
        lemma_arguments_tokens(ts, list.push(a), argument.pos + 1, argument.errors);
        lemma_expression_tokens(ts, pos, checked);
        assert(full.subrange(0, n + 1) == list.push(a));
        assert(full.subrange(0, n) =~= list) by {
            assert forall|k: int| 0 <= k < n implies full[k] == list[k] by {
                assert(full.subrange(0, n + 1)[k] == full[k]);
            }
        }
        assert(full[n] == a) by {
            assert(full.subrange(0, n + 1)[n] == full[n]);
        }
        lemma_fixed_kind_is_fixed_token(ts[argument.pos]);
        lemma_segment_one(ts, argument.pos);
        lemma_segment_parts(ts, pos, argument.pos, r.pos);
        lemma_segment_parts(ts, argument.pos, argument.pos + 1, r.pos);
        assert(argument_tokens(full, n) =~= segment(ts, pos, r.pos));
    } else {
        assert(r == done(list.push(a), argument.pos, argument.errors));
        lemma_expression_tokens(ts, pos, checked);
        assert(full.subrange(0, n) =~= list);
        assert(argument_tokens(full, n) =~= segment(ts, pos, r.pos));
    }
}

/// [`lemma_expression_tokens`], of a primary expression.
pub proof fn lemma_primary_tokens(ts: Seq<TokenView>, pos: int, errs: Seq<ErrorView>)
    requires
        well_scanned(ts),
        0 <= pos < ts.len(),
        went_well(parse_primary(ts, pos, errs)),
    ensures
        errs.len() == 0,
        pos < parse_primary(ts, pos, errs).pos < ts.len(),
        starts_expression(ts[pos].token_type),
        ts[pos].token_type != TokenType::Bang && ts[pos].token_type != TokenType::Minus,
        expression_tokens(parse_primary(ts, pos, errs).value->0) == segment(
            ts,
            pos,
            parse_primary(ts, pos, errs).pos,
        ),
    decreases ts.len() - pos, 5int,
{
    let r = parse_primary(ts, pos, errs);
    let kind = ts[pos].token_type;
    lemma_well_scanned_at(ts, pos);
    if check(ts, pos, TokenType::LeftParen) {
        let inner = parse_expression(ts, pos + 1, errs);
        assert(went_well(inner));
        assert(r.pos == inner.pos + 1);
        lemma_expression_tokens(ts, pos + 1, errs);
        lemma_well_scanned_at(ts, inner.pos);
        lemma_fixed_kind_is_fixed_token(ts[pos]);
        lemma_fixed_kind_is_fixed_token(ts[inner.pos]);
        lemma_segment_one(ts, pos);
        lemma_segment_one(ts, inner.pos);
        lemma_segment_parts(ts, pos, pos + 1, r.pos);
        lemma_segment_parts(ts, pos + 1, inner.pos, r.pos);
        assert(expression_tokens(r.value->0) =~= segment(ts, pos, r.pos));
    } else {
        assert(r.pos == pos + 1);
        if kind == TokenType::Number || kind == TokenType::String {
            lemma_literal_is_literal_token(ts[pos]);
        } else if kind != TokenType::Identifier {
            lemma_fixed_kind_is_fixed_token(ts[pos]);
        }
        lemma_segment_one(ts, pos);
        assert(expression_tokens(r.value->0) =~= segment(ts, pos, r.pos));
    }
}

} // verus!
