//! The syntax tree written out again: as tokens, and as text that the
//! scanner and the parser read back.

use vstd::prelude::*;
use vstd::string::*;
use crate::lang::lexer::{LiteralView, TokenType, TokenView};
use crate::lang::laws::scanning::{fixed_lexeme, lexemes, spaced};
use crate::lang::parser::{ExpressionView, StatementView};

verus! {

/// The token `t` without its place.
pub open spec fn placeless(t: TokenView) -> TokenView {
    TokenView {
        token_type: t.token_type,
        lexeme: t.lexeme,
        literal: t.literal,
        line: 0,
        column: 0,
    }
}

/// The token of a kind that is always written in one way.
pub open spec fn fixed_token(kind: TokenType) -> TokenView
    recommends
        fixed_lexeme(kind) is Some,
{
    TokenView {
        token_type: kind,
        lexeme: fixed_lexeme(kind)->0,
        literal: None,
        line: 0,
        column: 0,
    }
}

/// The token that writes a literal value: a keyword, a numeral, or a text
/// between quotes.
pub open spec fn literal_token(value: LiteralView) -> TokenView {
    match value {
        LiteralView::Boolean(b) => fixed_token(if b { TokenType::True } else { TokenType::False }),
        LiteralView::Nil => fixed_token(TokenType::Nil),
        LiteralView::Number(numeral) => TokenView {
            token_type: TokenType::Number,
            lexeme: numeral,
            literal: Some(value),
            line: 0,
            column: 0,
        },
        LiteralView::String(text) => TokenView {
            token_type: TokenType::String,
            lexeme: seq!['"'] + text + seq!['"'],
            literal: Some(value),
            line: 0,
            column: 0,
        },
    }
}

/// The tokens that write the expression `e`. Nothing is added: a group is
/// a node of the tree, so the tree says where the parentheses stand.
pub open spec fn expression_tokens(e: ExpressionView) -> Seq<TokenView>
    decreases e, 0int,
{
    match e {
        ExpressionView::Binary { left, operator, right } => expression_tokens(*left) + seq![
            placeless(operator),
        ] + expression_tokens(*right),
        ExpressionView::Logical { left, operator, right } => expression_tokens(*left) + seq![
            placeless(operator),
        ] + expression_tokens(*right),
        ExpressionView::Grouping(inner) => seq![fixed_token(TokenType::LeftParen)]
            + expression_tokens(*inner) + seq![fixed_token(TokenType::RightParen)],
        ExpressionView::Literal(value) => seq![literal_token(value)],
        ExpressionView::Unary { operator, right } => seq![placeless(operator)] + expression_tokens(
            *right,
        ),
        ExpressionView::Variable(name) => seq![placeless(name)],
        ExpressionView::Assign { name, value } => seq![
            placeless(name),
            fixed_token(TokenType::Equal),
        ] + expression_tokens(*value),
        ExpressionView::Call { callee, parenthesis, arguments } => expression_tokens(*callee)
            + seq![fixed_token(TokenType::LeftParen)] + argument_tokens(arguments, 0) + seq![
            placeless(parenthesis),
        ],
    }
}

/// The tokens that write the arguments of `list` from index `i` on, with a
/// comma between each two.
pub open spec fn argument_tokens(list: Seq<ExpressionView>, i: int) -> Seq<TokenView>
    decreases list, list.len() - i,
{
    if 0 <= i < list.len() {
        if i + 1 < list.len() {
            expression_tokens(list[i]) + seq![fixed_token(TokenType::Comma)] + argument_tokens(
                list,
                i + 1,
            )
        } else {
            expression_tokens(list[i])
        }
    } else {
        Seq::empty()
    }
}

/// The tokens that write the parameters of `list` from index `i` on, with
/// a comma between each two.
#[verifier::opaque]
pub open spec fn parameter_tokens(list: Seq<TokenView>, i: int) -> Seq<TokenView>
    decreases list.len() - i,
{
    if 0 <= i < list.len() {
        if i + 1 < list.len() {
            seq![placeless(list[i]), fixed_token(TokenType::Comma)] + parameter_tokens(list, i + 1)
        } else {
            seq![placeless(list[i])]
        }
    } else {
        Seq::empty()
    }
}

/// The tokens that write the statement `s`.
#[verifier::opaque]
pub open spec fn statement_tokens(s: StatementView) -> Seq<TokenView>
    decreases s, 0int,
{
    match s {
        StatementView::Expression(e) => expression_tokens(e) + seq![
            fixed_token(TokenType::Semicolon),
        ],
        StatementView::Print(e) => seq![fixed_token(TokenType::Print)] + expression_tokens(e)
            + seq![fixed_token(TokenType::Semicolon)],
        StatementView::Variable { name, initializer } => seq![
            fixed_token(TokenType::Variable),
            placeless(name),
        ] + (match initializer {
            Some(e) => seq![fixed_token(TokenType::Equal)] + expression_tokens(e),
            None => Seq::empty(),
        }) + seq![fixed_token(TokenType::Semicolon)],
        StatementView::Block(statements) => seq![fixed_token(TokenType::LeftBrace)]
            + statements_tokens(statements, 0) + seq![fixed_token(TokenType::RightBrace)],
        StatementView::If { condition, then_branch, else_branch } => seq![
            fixed_token(TokenType::If),
            fixed_token(TokenType::LeftParen),
        ] + expression_tokens(condition) + seq![fixed_token(TokenType::RightParen)]
            + statement_tokens(*then_branch) + (match else_branch {
            Some(e) => seq![fixed_token(TokenType::Else)] + statement_tokens(*e),
            None => Seq::empty(),
        }),
        StatementView::While { condition, body } => seq![
            fixed_token(TokenType::While),
            fixed_token(TokenType::LeftParen),
        ] + expression_tokens(condition) + seq![fixed_token(TokenType::RightParen)]
            + statement_tokens(*body),
        StatementView::Function { name, parameters, body } => seq![
            fixed_token(TokenType::Function),
            placeless(name),
            fixed_token(TokenType::LeftParen),
        ] + parameter_tokens(parameters, 0) + seq![fixed_token(TokenType::RightParen)]
            + statement_tokens(*body),
        StatementView::Return { keyword, value } => seq![fixed_token(TokenType::Return)] + (match value {
            Some(e) => expression_tokens(e),
            None => Seq::empty(),
        }) + seq![fixed_token(TokenType::Semicolon)],
        StatementView::Break { keyword } => seq![
            fixed_token(TokenType::Break),
            fixed_token(TokenType::Semicolon),
        ],
        StatementView::Continue { keyword } => seq![
            fixed_token(TokenType::Continue),
            fixed_token(TokenType::Semicolon),
        ],
    }
}

/// The tokens that write the statements of `list` from index `i` on.
#[verifier::opaque]
pub open spec fn statements_tokens(list: Seq<StatementView>, i: int) -> Seq<TokenView>
    decreases list, list.len() - i,
{
    if 0 <= i < list.len() {
        statement_tokens(list[i]) + statements_tokens(list, i + 1)
    } else {
        Seq::empty()
    }
}

/// The canonical text of a program: the lexemes of its tokens with one
/// space between each two.
pub open spec fn rendered(program: Seq<StatementView>) -> Seq<char> {
    spaced(lexemes(statements_tokens(program, 0)))
}

// ---------------------------------------------------------------------------
// Trees without places
// ---------------------------------------------------------------------------

/// The expression `e` with every token without its place: what two
/// expressions have in common when they differ only in where they were
/// written.
#[verifier::opaque]
pub open spec fn placeless_expression(e: ExpressionView) -> ExpressionView
    decreases e,
{
    match e {
        ExpressionView::Binary { left, operator, right } => ExpressionView::Binary {
            left: Box::new(placeless_expression(*left)),
            operator: placeless(operator),
            right: Box::new(placeless_expression(*right)),
        },
        ExpressionView::Logical { left, operator, right } => ExpressionView::Logical {
            left: Box::new(placeless_expression(*left)),
            operator: placeless(operator),
            right: Box::new(placeless_expression(*right)),
        },
        ExpressionView::Grouping(inner) => ExpressionView::Grouping(
            Box::new(placeless_expression(*inner)),
        ),
        ExpressionView::Literal(value) => ExpressionView::Literal(value),
        ExpressionView::Unary { operator, right } => ExpressionView::Unary {
            operator: placeless(operator),
            right: Box::new(placeless_expression(*right)),
        },
        ExpressionView::Variable(name) => ExpressionView::Variable(placeless(name)),
        ExpressionView::Assign { name, value } => ExpressionView::Assign {
            name: placeless(name),
            value: Box::new(placeless_expression(*value)),
        },
        ExpressionView::Call { callee, parenthesis, arguments } => ExpressionView::Call {
            callee: Box::new(placeless_expression(*callee)),
            parenthesis: placeless(parenthesis),
            arguments: Seq::new(
                arguments.len(),
                |i: int|
                    if 0 <= i < arguments.len() {
                        placeless_expression(arguments[i])
                    } else {
                        ExpressionView::Literal(LiteralView::Nil)
                    },
            ),
        },
    }
}

/// The expressions of `list`, each without places.
#[verifier::opaque]
pub open spec fn placeless_expressions(list: Seq<ExpressionView>) -> Seq<ExpressionView> {
    Seq::new(list.len(), |i: int| placeless_expression(list[i]))
}

/// The tokens of `list`, each without its place.
pub open spec fn placeless_tokens(list: Seq<TokenView>) -> Seq<TokenView> {
    Seq::new(list.len(), |i: int| placeless(list[i]))
}

/// An optional expression without places.
pub open spec fn placeless_optional(e: Option<ExpressionView>) -> Option<ExpressionView> {
    match e {
        Some(e) => Some(placeless_expression(e)),
        None => None,
    }
}

/// The statement `s` with every token without its place.
#[verifier::opaque]
pub open spec fn placeless_statement(s: StatementView) -> StatementView
    decreases s,
{
    match s {
        StatementView::Expression(e) => StatementView::Expression(placeless_expression(e)),
        StatementView::Print(e) => StatementView::Print(placeless_expression(e)),
        StatementView::Variable { name, initializer } => StatementView::Variable {
            name: placeless(name),
            initializer: placeless_optional(initializer),
        },
        StatementView::Block(statements) => StatementView::Block(
            Seq::new(
                statements.len(),
                |i: int|
                    if 0 <= i < statements.len() {
                        placeless_statement(statements[i])
                    } else {
                        StatementView::Block(Seq::empty())
                    },
            ),
        ),
        StatementView::If { condition, then_branch, else_branch } => StatementView::If {
            condition: placeless_expression(condition),
            then_branch: Box::new(placeless_statement(*then_branch)),
            else_branch: match else_branch {
                Some(e) => Some(Box::new(placeless_statement(*e))),
                None => None,
            },
        },
        StatementView::While { condition, body } => StatementView::While {
            condition: placeless_expression(condition),
            body: Box::new(placeless_statement(*body)),
        },
        StatementView::Function { name, parameters, body } => StatementView::Function {
            name: placeless(name),
            parameters: placeless_tokens(parameters),
            body: Box::new(placeless_statement(*body)),
        },
        StatementView::Return { keyword, value } => StatementView::Return {
            keyword: placeless(keyword),
            value: placeless_optional(value),
        },
        StatementView::Break { keyword } => StatementView::Break { keyword: placeless(keyword) },
        StatementView::Continue { keyword } => StatementView::Continue {
            keyword: placeless(keyword),
        },
    }
}

/// The statements of `list`, each without places.
#[verifier::opaque]
pub open spec fn placeless_statements(list: Seq<StatementView>) -> Seq<StatementView> {
    Seq::new(list.len(), |i: int| placeless_statement(list[i]))
}

} // verus!
