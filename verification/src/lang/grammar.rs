//! The grammar, as functions on token sequences.
//!
//! Each function reads the tokens `ts` from index `pos` on, with the
//! diagnostics `errors` recorded so far, and says what is parsed there: the
//! tree (or `None` where parsing stops), the index after it, and the
//! diagnostics recorded by then.
//!
//! Parsing stops at the first token that the grammar does not allow there,
//! with one diagnostic for it. One thing is recorded without stopping: an
//! argument or parameter beyond the limit.

use vstd::prelude::*;
use crate::lang::errors::ErrorView;
use crate::lang::lexer::{LiteralView, TokenType, TokenView};
use crate::lang::parser::{ExpressionView, StatementView};
use crate::lang::{MAX_ARGUMENTS, MAX_PARAMETERS};

verus! {

/// What a grammar function found: the value (`None` where parsing stopped),
/// the index of the next token, and the diagnostics so far.
pub struct Parsed<T> {
    pub value: Option<T>,
    pub pos: int,
    pub errors: Seq<ErrorView>,
}

/// Parsing went on: `value` was found, and `pos` is the next index.
pub open spec fn done<T>(value: T, pos: int, errors: Seq<ErrorView>) -> Parsed<T> {
    Parsed { value: Some(value), pos, errors }
}

/// Parsing stopped.
pub open spec fn stopped<T>(pos: int, errors: Seq<ErrorView>) -> Parsed<T> {
    Parsed { value: None, pos, errors }
}

/// The diagnostic for `message` at `token`.
pub open spec fn diagnostic(token: TokenView, message: Seq<char>) -> ErrorView {
    ErrorView {
        line: token.line,
        column: token.column,
        message: if token.token_type == TokenType::Eof {
            message + " at end"@
        } else {
            token.lexeme + " at '"@ + message + "'"@
        },
    }
}

/// Parsing stopped with the diagnostic for `message` at `token`.
pub open spec fn rejected<T>(
    pos: int,
    errors: Seq<ErrorView>,
    token: TokenView,
    message: Seq<char>,
) -> Parsed<T> {
    stopped(pos, errors.push(diagnostic(token, message)))
}

/// `p` itself: no grammar function ends before the index `from` where it
/// began, nor beyond the tokens, so the other branch is never taken (see
/// `law_forward_changes_nothing`). It is what lets the definitions below be
/// seen to terminate.
pub open spec fn forward<T>(ts: Seq<TokenView>, p: Parsed<T>, from: int) -> Parsed<T> {
    if p.value is None || from <= p.pos <= ts.len() {
        p
    } else {
        stopped(from, p.errors)
    }
}

/// Whether the tokens are used up at `pos`: the end token stands there.
pub open spec fn at_end(ts: Seq<TokenView>, pos: int) -> bool {
    !(0 <= pos < ts.len()) || ts[pos].token_type == TokenType::Eof
}

/// Whether a token of kind `kind` stands at `pos`.
pub open spec fn check(ts: Seq<TokenView>, pos: int, kind: TokenType) -> bool {
    !at_end(ts, pos) && ts[pos].token_type == kind
}

/// The token of kind `kind` at `pos`; where another stands there, parsing
/// stops with `message`.
pub open spec fn consume(
    ts: Seq<TokenView>,
    pos: int,
    errors: Seq<ErrorView>,
    kind: TokenType,
    message: Seq<char>,
) -> Parsed<TokenView> {
    if check(ts, pos, kind) {
        done(ts[pos], pos + 1, errors)
    } else {
        rejected(pos, errors, ts[pos], message)
    }
}

// ---------------------------------------------------------------------------
// Expressions
// ---------------------------------------------------------------------------

/// The number of levels of binary operators. From the loosest to the
/// tightest: `or`; `and`; `!=` `==`; `>` `>=` `<` `<=`; `-` `+`; `/` `*`.
pub open spec fn binary_levels() -> int {
    6
}

/// Whether a token of kind `kind` is an operator of level `level`.
pub open spec fn is_operator(level: int, kind: TokenType) -> bool {
    if level == 0 {
        kind == TokenType::Or
    } else if level == 1 {
        kind == TokenType::And
    } else if level == 2 {
        kind == TokenType::BangEqual || kind == TokenType::EqualEqual
    } else if level == 3 {
        kind == TokenType::Greater || kind == TokenType::GreaterEqual || kind == TokenType::Less
            || kind == TokenType::LessEqual
    } else if level == 4 {
        kind == TokenType::Minus || kind == TokenType::Plus
    } else if level == 5 {
        kind == TokenType::Slash || kind == TokenType::Star
    } else {
        false
    }
}

/// The node for `left operator right` at level `level`: `or` and `and` make
/// a `Logical` node, which keeps its operands apart as a `Binary` node
/// does.
pub open spec fn binary_node(
    level: int,
    left: ExpressionView,
    operator: TokenView,
    right: ExpressionView,
) -> ExpressionView {
    if level <= 1 {
        ExpressionView::Logical { left: Box::new(left), operator, right: Box::new(right) }
    } else {
        ExpressionView::Binary { left: Box::new(left), operator, right: Box::new(right) }
    }
}

/// The diagnostics after the limit on a list was checked: one more, at
/// `token`, where the list holds `count` items and `limit` or more are too
/// many.
pub open spec fn limit_checked(
    errors: Seq<ErrorView>,
    count: nat,
    limit: nat,
    token: TokenView,
    message: Seq<char>,
) -> Seq<ErrorView> {
    if count >= limit {
        errors.push(diagnostic(token, message))
    } else {
        errors
    }
}

/// expression → assignment
pub open spec fn parse_expression(ts: Seq<TokenView>, pos: int, errors: Seq<ErrorView>) -> Parsed<
    ExpressionView,
>
    decreases ts.len() - pos, 22int,
{
    parse_assignment(ts, pos, errors)
}

/// assignment → logic-or ( `=` assignment )?
///
/// What stands left of `=` must be a variable. The diagnostic for another
/// target is recorded at the `=`, after the value was parsed.
pub open spec fn parse_assignment(ts: Seq<TokenView>, pos: int, errors: Seq<ErrorView>) -> Parsed<
    ExpressionView,
>
    decreases ts.len() - pos, 21int,
{
    let target = forward(ts, parse_binary(ts, 0, pos, errors), pos);
    match target.value {
        None => target,
        Some(left) => if check(ts, target.pos, TokenType::Equal) {
            let equals = ts[target.pos];
            let value = parse_assignment(ts, target.pos + 1, target.errors);
            match value.value {
                None => value,
                Some(v) => match left {
                    ExpressionView::Variable(name) => done(
                        ExpressionView::Assign { name, value: Box::new(v) },
                        value.pos,
                        value.errors,
                    ),
                    _ => rejected(value.pos, value.errors, equals, "Invalid assignment target!"@),
                },
            }
        } else {
            target
        },
    }
}

/// level → operand ( operator operand )*, for the operators of one level:
/// a chain that associates to the left. An operand is an expression of the
/// next level, or a unary expression below the last level.
pub open spec fn parse_binary(
    ts: Seq<TokenView>,
    level: int,
    pos: int,
    errors: Seq<ErrorView>,
) -> Parsed<ExpressionView>
    decreases ts.len() - pos, 20 - 2 * level,
{
    if 0 <= level < binary_levels() {
        let first = forward(
            ts,
            if level + 1 < binary_levels() {
                parse_binary(ts, level + 1, pos, errors)
            } else {
                parse_unary(ts, pos, errors)
            },
            pos,
        );
        match first.value {
            None => first,
            Some(left) => parse_binary_rest(ts, level, left, first.pos, first.errors),
        }
    } else {
        stopped(pos, errors)
    }
}

/// ( operator operand )*, after the operands that make up `left`.
pub open spec fn parse_binary_rest(
    ts: Seq<TokenView>,
    level: int,
    left: ExpressionView,
    pos: int,
    errors: Seq<ErrorView>,
) -> Parsed<ExpressionView>
    decreases ts.len() - pos, 18 - 2 * level,
{
    if 0 <= level < binary_levels() && !at_end(ts, pos) && is_operator(
        level,
        ts[pos].token_type,
    ) {
        let right = forward(
            ts,
            if level + 1 < binary_levels() {
                parse_binary(ts, level + 1, pos + 1, errors)
            } else {
                parse_unary(ts, pos + 1, errors)
            },
            pos + 1,
        );
        match right.value {
            None => right,
            Some(r) => parse_binary_rest(
                ts,
                level,
                binary_node(level, left, ts[pos], r),
                right.pos,
                right.errors,
            ),
        }
    } else {
        done(left, pos, errors)
    }
}

/// unary → ( `!` | `-` ) unary | call
pub open spec fn parse_unary(ts: Seq<TokenView>, pos: int, errors: Seq<ErrorView>) -> Parsed<
    ExpressionView,
>
    decreases ts.len() - pos, 8int,
{
    if check(ts, pos, TokenType::Bang) || check(ts, pos, TokenType::Minus) {
        let right = parse_unary(ts, pos + 1, errors);
        match right.value {
            None => right,
            Some(r) => done(
                ExpressionView::Unary { operator: ts[pos], right: Box::new(r) },
                right.pos,
                right.errors,
            ),
        }
    } else {
        parse_call(ts, pos, errors)
    }
}

/// call → primary ( `(` arguments? `)` )*
pub open spec fn parse_call(ts: Seq<TokenView>, pos: int, errors: Seq<ErrorView>) -> Parsed<
    ExpressionView,
>
    decreases ts.len() - pos, 7int,
{
    let callee = forward(ts, parse_primary(ts, pos, errors), pos);
    match callee.value {
        None => callee,
        Some(c) => parse_call_rest(ts, c, callee.pos, callee.errors),
    }
}

/// ( `(` arguments? `)` )*, after the expression `callee`.
pub open spec fn parse_call_rest(
    ts: Seq<TokenView>,
    callee: ExpressionView,
    pos: int,
    errors: Seq<ErrorView>,
) -> Parsed<ExpressionView>
    decreases ts.len() - pos, 6int,
{
    if check(ts, pos, TokenType::LeftParen) {
        let call = forward(ts, parse_finish_call(ts, callee, pos + 1, errors), pos + 1);
        match call.value {
            None => call,
            Some(c) => parse_call_rest(ts, c, call.pos, call.errors),
        }
    } else {
        done(callee, pos, errors)
    }
}

/// arguments? `)`, after the `(` of a call of `callee`.
pub open spec fn parse_finish_call(
    ts: Seq<TokenView>,
    callee: ExpressionView,
    pos: int,
    errors: Seq<ErrorView>,
) -> Parsed<ExpressionView>
    decreases ts.len() - pos, 24int,
{
    let list = if check(ts, pos, TokenType::RightParen) {
        done(Seq::<ExpressionView>::empty(), pos, errors)
    } else {
        parse_arguments(ts, Seq::empty(), pos, errors)
    };
    match list.value {
        None => stopped(list.pos, list.errors),
        Some(arguments) => {
            let close = consume(
                ts,
                list.pos,
                list.errors,
                TokenType::RightParen,
                "Expected ')' after arguments."@,
            );
            match close.value {
                None => stopped(close.pos, close.errors),
                Some(parenthesis) => done(
                    ExpressionView::Call { callee: Box::new(callee), parenthesis, arguments },
                    close.pos,
                    close.errors,
                ),
            }
        },
    }
}

/// arguments → expression ( `,` expression )*, after the arguments `list`.
///
/// An argument beyond the limit is recorded at its first token, and
/// parsing goes on.
pub open spec fn parse_arguments(
    ts: Seq<TokenView>,
    list: Seq<ExpressionView>,
    pos: int,
    errors: Seq<ErrorView>,
) -> Parsed<Seq<ExpressionView>>
    decreases ts.len() - pos, 23int,
{
    let checked = limit_checked(
        errors,
        list.len(),
        MAX_ARGUMENTS as nat,
        ts[pos],
        "Cannot have more than 255 arguments."@,
    );
    let argument = forward(ts, parse_expression(ts, pos, checked), pos);
    match argument.value {
        None => stopped(argument.pos, argument.errors),
        Some(a) => if check(ts, argument.pos, TokenType::Comma) {
            parse_arguments(ts, list.push(a), argument.pos + 1, argument.errors)
        } else {
            done(list.push(a), argument.pos, argument.errors)
        },
    }
}

/// primary → `false` | `true` | `nil` | number | string | identifier
///         | `(` expression `)`
pub open spec fn parse_primary(ts: Seq<TokenView>, pos: int, errors: Seq<ErrorView>) -> Parsed<
    ExpressionView,
>
    decreases ts.len() - pos, 5int,
{
    if check(ts, pos, TokenType::False) {
        done(ExpressionView::Literal(LiteralView::Boolean(false)), pos + 1, errors)
    } else if check(ts, pos, TokenType::True) {
        done(ExpressionView::Literal(LiteralView::Boolean(true)), pos + 1, errors)
    } else if check(ts, pos, TokenType::Nil) {
        done(ExpressionView::Literal(LiteralView::Nil), pos + 1, errors)
    } else if check(ts, pos, TokenType::Number) || check(ts, pos, TokenType::String) {
        match ts[pos].literal {
            Some(value) => done(ExpressionView::Literal(value), pos + 1, errors),
            None => rejected(pos + 1, errors, ts[pos], "Expected literal!"@),
        }
    } else if check(ts, pos, TokenType::Identifier) {
        done(ExpressionView::Variable(ts[pos]), pos + 1, errors)
    } else if check(ts, pos, TokenType::LeftParen) {
        let inner = parse_expression(ts, pos + 1, errors);
        match inner.value {
            None => inner,
            Some(e) => {
                let close = consume(
                    ts,
                    inner.pos,
                    inner.errors,
                    TokenType::RightParen,
                    "Expected ')' after expression!"@,
                );
                match close.value {
                    None => stopped(close.pos, close.errors),
                    Some(_) => done(
                        ExpressionView::Grouping(Box::new(e)),
                        close.pos,
                        close.errors,
                    ),
                }
            },
        }
    } else {
        rejected(pos, errors, ts[pos], "Expected expression ('false', 'true', 'nil', number, string, identifier or '(')!"@)
    }
}


// ---------------------------------------------------------------------------
// Statements
// ---------------------------------------------------------------------------

/// An expression, unless a token of kind `stop` stands at `pos`.
pub open spec fn parse_optional_expression(
    ts: Seq<TokenView>,
    pos: int,
    errors: Seq<ErrorView>,
    stop: TokenType,
) -> Parsed<Option<ExpressionView>> {
    if check(ts, pos, stop) {
        done(None, pos, errors)
    } else {
        let e = parse_expression(ts, pos, errors);
        match e.value {
            None => stopped(e.pos, e.errors),
            Some(v) => done(Some(v), e.pos, e.errors),
        }
    }
}

/// An expression and the token of kind `kind` that must follow it.
pub open spec fn parse_closed_expression(
    ts: Seq<TokenView>,
    pos: int,
    errors: Seq<ErrorView>,
    kind: TokenType,
    message: Seq<char>,
) -> Parsed<ExpressionView> {
    let e = parse_expression(ts, pos, errors);
    match e.value {
        None => e,
        Some(v) => {
            let close = consume(ts, e.pos, e.errors, kind, message);
            match close.value {
                None => stopped(close.pos, close.errors),
                Some(_) => done(v, close.pos, close.errors),
            }
        },
    }
}

/// expression `;`
pub open spec fn parse_expression_statement(
    ts: Seq<TokenView>,
    pos: int,
    errors: Seq<ErrorView>,
) -> Parsed<StatementView> {
    let e = parse_closed_expression(
        ts,
        pos,
        errors,
        TokenType::Semicolon,
        "Expected ';' after expression."@,
    );
    match e.value {
        None => stopped(e.pos, e.errors),
        Some(v) => done(StatementView::Expression(v), e.pos, e.errors),
    }
}

/// expression `;`, after `print`.
pub open spec fn parse_print_statement(
    ts: Seq<TokenView>,
    pos: int,
    errors: Seq<ErrorView>,
) -> Parsed<StatementView> {
    let e = parse_closed_expression(
        ts,
        pos,
        errors,
        TokenType::Semicolon,
        "Expected ';' after value."@,
    );
    match e.value {
        None => stopped(e.pos, e.errors),
        Some(v) => done(StatementView::Print(v), e.pos, e.errors),
    }
}

/// expression? `;`, after the `return` at `pos - 1`.
pub open spec fn parse_return_statement(
    ts: Seq<TokenView>,
    pos: int,
    errors: Seq<ErrorView>,
) -> Parsed<StatementView> {
    let value = parse_optional_expression(ts, pos, errors, TokenType::Semicolon);
    match value.value {
        None => stopped(value.pos, value.errors),
        Some(v) => {
            let close = consume(
                ts,
                value.pos,
                value.errors,
                TokenType::Semicolon,
                "Expected ';' after return value."@,
            );
            match close.value {
                None => stopped(close.pos, close.errors),
                Some(_) => done(
                    StatementView::Return { keyword: ts[pos - 1], value: v },
                    close.pos,
                    close.errors,
                ),
            }
        },
    }
}

/// `;`, after the `break` at `pos - 1`.
pub open spec fn parse_break_statement(
    ts: Seq<TokenView>,
    pos: int,
    errors: Seq<ErrorView>,
) -> Parsed<StatementView> {
    let close = consume(ts, pos, errors, TokenType::Semicolon, "Expected ';' after 'break'."@);
    match close.value {
        None => stopped(close.pos, close.errors),
        Some(_) => done(StatementView::Break { keyword: ts[pos - 1] }, close.pos, close.errors),
    }
}

/// `;`, after the `continue` at `pos - 1`.
pub open spec fn parse_continue_statement(
    ts: Seq<TokenView>,
    pos: int,
    errors: Seq<ErrorView>,
) -> Parsed<StatementView> {
    let close = consume(ts, pos, errors, TokenType::Semicolon, "Expected ';' after 'continue'."@);
    match close.value {
        None => stopped(close.pos, close.errors),
        Some(_) => done(
            StatementView::Continue { keyword: ts[pos - 1] },
            close.pos,
            close.errors,
        ),
    }
}

/// identifier ( `=` expression )? `;`, after `let`.
pub open spec fn parse_variable_declaration(
    ts: Seq<TokenView>,
    pos: int,
    errors: Seq<ErrorView>,
) -> Parsed<StatementView> {
    let name = consume(ts, pos, errors, TokenType::Identifier, "Expected variable name."@);
    match name.value {
        None => stopped(name.pos, name.errors),
        Some(n) => {
            let initializer = if check(ts, name.pos, TokenType::Equal) {
                parse_optional_expression(ts, name.pos + 1, name.errors, TokenType::Eof)
            } else {
                done(None, name.pos, name.errors)
            };
            match initializer.value {
                None => stopped(initializer.pos, initializer.errors),
                Some(i) => {
                    let close = consume(
                        ts,
                        initializer.pos,
                        initializer.errors,
                        TokenType::Semicolon,
                        "Expected ';' after variable declaration."@,
                    );
                    match close.value {
                        None => stopped(close.pos, close.errors),
                        Some(_) => done(
                            StatementView::Variable { name: n, initializer: i },
                            close.pos,
                            close.errors,
                        ),
                    }
                },
            }
        },
    }
}

/// identifier ( `,` identifier )*, after the parameters `list`.
///
/// A parameter beyond the limit is recorded at its token, and parsing goes
/// on.
pub open spec fn parse_parameter_list(
    ts: Seq<TokenView>,
    list: Seq<TokenView>,
    pos: int,
    errors: Seq<ErrorView>,
) -> Parsed<Seq<TokenView>>
    decreases ts.len() - pos,
{
    let checked = limit_checked(
        errors,
        list.len(),
        MAX_PARAMETERS as nat,
        ts[pos],
        "Cannot have more than 255 parameters."@,
    );
    let name = consume(ts, pos, checked, TokenType::Identifier, "Expected parameter name."@);
    match name.value {
        None => stopped(name.pos, name.errors),
        Some(n) => if check(ts, name.pos, TokenType::Comma) {
            parse_parameter_list(ts, list.push(n), name.pos + 1, name.errors)
        } else {
            done(list.push(n), name.pos, name.errors)
        },
    }
}

/// `(` ( identifier ( `,` identifier )* )? `)`
pub open spec fn parse_function_parameters(
    ts: Seq<TokenView>,
    pos: int,
    errors: Seq<ErrorView>,
) -> Parsed<Seq<TokenView>> {
    let open = consume(
        ts,
        pos,
        errors,
        TokenType::LeftParen,
        "Expected '(' after function name."@,
    );
    match open.value {
        None => stopped(open.pos, open.errors),
        Some(_) => {
            let list = if check(ts, open.pos, TokenType::RightParen) {
                done(Seq::<TokenView>::empty(), open.pos, open.errors)
            } else {
                parse_parameter_list(ts, Seq::empty(), open.pos, open.errors)
            };
            match list.value {
                None => list,
                Some(parameters) => {
                    let close = consume(
                        ts,
                        list.pos,
                        list.errors,
                        TokenType::RightParen,
                        "Expected ')' after parameters."@,
                    );
                    match close.value {
                        None => stopped(close.pos, close.errors),
                        Some(_) => done(parameters, close.pos, close.errors),
                    }
                },
            }
        },
    }
}

/// The first clause of a `for` loop: `;`, a variable declaration, or an
/// expression statement.
pub open spec fn parse_for_initializer(
    ts: Seq<TokenView>,
    pos: int,
    errors: Seq<ErrorView>,
) -> Parsed<Option<StatementView>> {
    if check(ts, pos, TokenType::Semicolon) {
        done(None, pos + 1, errors)
    } else {
        let s = if check(ts, pos, TokenType::Variable) {
            parse_variable_declaration(ts, pos + 1, errors)
        } else {
            parse_expression_statement(ts, pos, errors)
        };
        match s.value {
            None => stopped(s.pos, s.errors),
            Some(v) => done(Some(v), s.pos, s.errors),
        }
    }
}

/// The three clauses of a `for` loop.
pub struct ForClauses {
    pub initializer: Option<StatementView>,
    pub condition: Option<ExpressionView>,
    pub increment: Option<ExpressionView>,
}

/// `(` initializer condition? `;` increment? `)`, after `for`.
pub open spec fn parse_for_clauses(
    ts: Seq<TokenView>,
    pos: int,
    errors: Seq<ErrorView>,
) -> Parsed<ForClauses> {
    let open = consume(ts, pos, errors, TokenType::LeftParen, "Expected '(' after 'for'."@);
    if open.value is None {
        stopped(open.pos, open.errors)
    } else {
        let initializer = parse_for_initializer(ts, open.pos, open.errors);
        if initializer.value is None {
            stopped(initializer.pos, initializer.errors)
        } else {
            let condition = parse_optional_expression(
                ts,
                initializer.pos,
                initializer.errors,
                TokenType::Semicolon,
            );
            if condition.value is None {
                stopped(condition.pos, condition.errors)
            } else {
                let semicolon = consume(
                    ts,
                    condition.pos,
                    condition.errors,
                    TokenType::Semicolon,
                    "Expected ';' after loop condition."@,
                );
                if semicolon.value is None {
                    stopped(semicolon.pos, semicolon.errors)
                } else {
                    let increment = parse_optional_expression(
                        ts,
                        semicolon.pos,
                        semicolon.errors,
                        TokenType::RightParen,
                    );
                    if increment.value is None {
                        stopped(increment.pos, increment.errors)
                    } else {
                        let close = consume(
                            ts,
                            increment.pos,
                            increment.errors,
                            TokenType::RightParen,
                            "Expected ')' after for clauses."@,
                        );
                        if close.value is None {
                            stopped(close.pos, close.errors)
                        } else {
                            done(
                                ForClauses {
                                    initializer: initializer.value->0,
                                    condition: condition.value->0,
                                    increment: increment.value->0,
                                },
                                close.pos,
                                close.errors,
                            )
                        }
                    }
                }
            }
        }
    }
}

/// What a `for` loop stands for: a block that holds the initializer, if
/// there is one, and a `while` loop. The loop's condition is the given one,
/// or `true`; its body is `body`, or, where there is an increment, a block
/// of `body` and the increment as an expression statement.
pub open spec fn desugared_for(clauses: ForClauses, body: StatementView) -> StatementView {
    let stepped = match clauses.increment {
        Some(i) => StatementView::Block(seq![body, StatementView::Expression(i)]),
        None => body,
    };
    let condition = match clauses.condition {
        Some(c) => c,
        None => ExpressionView::Literal(LiteralView::Boolean(true)),
    };
    let repeated = StatementView::While { condition, body: Box::new(stepped) };
    match clauses.initializer {
        Some(i) => StatementView::Block(seq![i, repeated]),
        None => StatementView::Block(seq![repeated]),
    }
}

/// declaration → `let` variable-declaration | `fn` function-declaration
///             | statement
pub open spec fn parse_declaration(ts: Seq<TokenView>, pos: int, errors: Seq<ErrorView>) -> Parsed<
    StatementView,
>
    decreases ts.len() - pos, 11int,
{
    if check(ts, pos, TokenType::Variable) {
        parse_variable_declaration(ts, pos + 1, errors)
    } else if check(ts, pos, TokenType::Function) {
        parse_function_declaration(ts, pos + 1, errors)
    } else {
        parse_statement(ts, pos, errors)
    }
}

/// identifier parameters block, after `fn`.
pub open spec fn parse_function_declaration(
    ts: Seq<TokenView>,
    pos: int,
    errors: Seq<ErrorView>,
) -> Parsed<StatementView>
    decreases ts.len() - pos, 10int,
{
    let name = consume(ts, pos, errors, TokenType::Identifier, "Expected function name."@);
    match name.value {
        None => stopped(name.pos, name.errors),
        Some(n) => {
            let parameters = forward(
                ts,
                parse_function_parameters(ts, name.pos, name.errors),
                name.pos,
            );
            match parameters.value {
                None => stopped(parameters.pos, parameters.errors),
                Some(p) => {
                    let body = parse_block(ts, parameters.pos, parameters.errors);
                    match body.value {
                        None => body,
                        Some(b) => done(
                            StatementView::Function {
                                name: n,
                                parameters: p,
                                body: Box::new(b),
                            },
                            body.pos,
                            body.errors,
                        ),
                    }
                },
            }
        },
    }
}

/// block → `{` declaration* `}`
pub open spec fn parse_block(ts: Seq<TokenView>, pos: int, errors: Seq<ErrorView>) -> Parsed<
    StatementView,
>
    decreases ts.len() - pos, 8int,
{
    let open = consume(ts, pos, errors, TokenType::LeftBrace, "Expected '{' before block."@);
    match open.value {
        None => stopped(open.pos, open.errors),
        Some(_) => {
            let items = parse_block_items(ts, Seq::empty(), open.pos, open.errors);
            match items.value {
                None => stopped(items.pos, items.errors),
                Some(statements) => {
                    let close = consume(
                        ts,
                        items.pos,
                        items.errors,
                        TokenType::RightBrace,
                        "Expected '}' after block."@,
                    );
                    match close.value {
                        None => stopped(close.pos, close.errors),
                        Some(_) => done(StatementView::Block(statements), close.pos, close.errors),
                    }
                },
            }
        },
    }
}

/// declaration*, after the declarations `list`, up to a `}` or the end.
pub open spec fn parse_block_items(
    ts: Seq<TokenView>,
    list: Seq<StatementView>,
    pos: int,
    errors: Seq<ErrorView>,
) -> Parsed<Seq<StatementView>>
    decreases ts.len() - pos, 12int,
{
    if check(ts, pos, TokenType::RightBrace) || at_end(ts, pos) {
        done(list, pos, errors)
    } else {
        let item = forward(ts, parse_declaration(ts, pos, errors), pos + 1);
        match item.value {
            None => stopped(item.pos, item.errors),
            Some(s) => parse_block_items(ts, list.push(s), item.pos, item.errors),
        }
    }
}

/// statement → `print` … | `return` … | `if` … | `while` … | `for` …
///           | `break` `;` | `continue` `;` | block | expression `;`
pub open spec fn parse_statement(ts: Seq<TokenView>, pos: int, errors: Seq<ErrorView>) -> Parsed<
    StatementView,
>
    decreases ts.len() - pos, 9int,
{
    if check(ts, pos, TokenType::Print) {
        parse_print_statement(ts, pos + 1, errors)
    } else if check(ts, pos, TokenType::Return) {
        parse_return_statement(ts, pos + 1, errors)
    } else if check(ts, pos, TokenType::If) {
        parse_if_statement(ts, pos + 1, errors)
    } else if check(ts, pos, TokenType::While) {
        parse_while_statement(ts, pos + 1, errors)
    } else if check(ts, pos, TokenType::For) {
        parse_for_statement(ts, pos + 1, errors)
    } else if check(ts, pos, TokenType::Break) {
        parse_break_statement(ts, pos + 1, errors)
    } else if check(ts, pos, TokenType::Continue) {
        parse_continue_statement(ts, pos + 1, errors)
    } else if check(ts, pos, TokenType::LeftBrace) {
        parse_block(ts, pos, errors)
    } else {
        parse_expression_statement(ts, pos, errors)
    }
}

/// `(` expression `)`: the condition of an `if` or a `while`.
pub open spec fn parse_condition(
    ts: Seq<TokenView>,
    pos: int,
    errors: Seq<ErrorView>,
    open_message: Seq<char>,
    close_message: Seq<char>,
) -> Parsed<ExpressionView> {
    let open = consume(ts, pos, errors, TokenType::LeftParen, open_message);
    match open.value {
        None => stopped(open.pos, open.errors),
        Some(_) => parse_closed_expression(
            ts,
            open.pos,
            open.errors,
            TokenType::RightParen,
            close_message,
        ),
    }
}

/// `(` expression `)` statement ( `else` statement )?, after `if`. An
/// `else` belongs to the nearest `if`.
pub open spec fn parse_if_statement(ts: Seq<TokenView>, pos: int, errors: Seq<ErrorView>) -> Parsed<
    StatementView,
>
    decreases ts.len() - pos, 7int,
{
    let condition = forward(
        ts,
        parse_condition(
            ts,
            pos,
            errors,
            "Expected '(' after 'if'."@,
            "Expected ')' after if condition."@,
        ),
        pos + 1,
    );
    match condition.value {
        None => stopped(condition.pos, condition.errors),
        Some(c) => {
            let then_branch = forward(
                ts,
                parse_statement(ts, condition.pos, condition.errors),
                condition.pos,
            );
            match then_branch.value {
                None => then_branch,
                Some(t) => if check(ts, then_branch.pos, TokenType::Else) {
                    let else_branch = parse_statement(
                        ts,
                        then_branch.pos + 1,
                        then_branch.errors,
                    );
                    match else_branch.value {
                        None => else_branch,
                        Some(e) => done(
                            StatementView::If {
                                condition: c,
                                then_branch: Box::new(t),
                                else_branch: Some(Box::new(e)),
                            },
                            else_branch.pos,
                            else_branch.errors,
                        ),
                    }
                } else {
                    done(
                        StatementView::If {
                            condition: c,
                            then_branch: Box::new(t),
                            else_branch: None,
                        },
                        then_branch.pos,
                        then_branch.errors,
                    )
                },
            }
        },
    }
}

/// `(` expression `)` statement, after `while`.
pub open spec fn parse_while_statement(
    ts: Seq<TokenView>,
    pos: int,
    errors: Seq<ErrorView>,
) -> Parsed<StatementView>
    decreases ts.len() - pos, 7int,
{
    let condition = forward(
        ts,
        parse_condition(
            ts,
            pos,
            errors,
            "Expected '(' after 'while'."@,
            "Expected ')' after while condition."@,
        ),
        pos + 1,
    );
    match condition.value {
        None => stopped(condition.pos, condition.errors),
        Some(c) => {
            let body = parse_statement(ts, condition.pos, condition.errors);
            match body.value {
                None => body,
                Some(b) => done(
                    StatementView::While { condition: c, body: Box::new(b) },
                    body.pos,
                    body.errors,
                ),
            }
        },
    }
}

/// clauses statement, after `for`; the loop is rewritten as
/// [`desugared_for`] says.
pub open spec fn parse_for_statement(
    ts: Seq<TokenView>,
    pos: int,
    errors: Seq<ErrorView>,
) -> Parsed<StatementView>
    decreases ts.len() - pos, 7int,
{
    let clauses = forward(ts, parse_for_clauses(ts, pos, errors), pos + 1);
    match clauses.value {
        None => stopped(clauses.pos, clauses.errors),
        Some(c) => {
            let body = parse_statement(ts, clauses.pos, clauses.errors);
            match body.value {
                None => body,
                Some(b) => done(desugared_for(c, b), body.pos, body.errors),
            }
        },
    }
}

/// declaration*, after the declarations `list`, up to the end of the tokens
/// or the first diagnostic.
pub open spec fn parse_program(
    ts: Seq<TokenView>,
    list: Seq<StatementView>,
    pos: int,
    errors: Seq<ErrorView>,
) -> Parsed<Seq<StatementView>>
    decreases ts.len() - pos,
{
    if at_end(ts, pos) || errors.len() > 0 {
        done(list, pos, errors)
    } else {
        let item = forward(ts, parse_declaration(ts, pos, errors), pos + 1);
        match item.value {
            None => stopped(item.pos, item.errors),
            Some(s) => parse_program(ts, list.push(s), item.pos, item.errors),
        }
    }
}

/// What parsing the tokens `ts` from index `pos` on gives, with `errors`
/// recorded before: the statements, where no diagnostic was recorded, and
/// the diagnostics otherwise.
pub open spec fn parse_from(ts: Seq<TokenView>, pos: int, errors: Seq<ErrorView>) -> Result<
    Seq<StatementView>,
    Seq<ErrorView>,
> {
    let program = parse_program(ts, Seq::empty(), pos, errors);
    match program.value {
        Some(statements) => if program.errors.len() == 0 {
            Ok(statements)
        } else {
            Err(program.errors)
        },
        None => Err(program.errors),
    }
}

/// What parsing the tokens `ts` gives: the statements of the program, or
/// the diagnostics.
pub open spec fn parse_tokens(ts: Seq<TokenView>) -> Result<Seq<StatementView>, Seq<ErrorView>> {
    parse_from(ts, 0, Seq::empty())
}

} // verus!
