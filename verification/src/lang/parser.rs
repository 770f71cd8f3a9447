//! The parser: tokens to a syntax tree.
//!
//! The grammar is stated as functions on token sequences ([`parse_program`]
//! and what it calls); [`Parser::parse`] computes what they say.

use vstd::prelude::*;
use vstd::string::*;
use crate::lang::errors::{clone_errors, error_views, Error, ErrorView};
use crate::lang::grammar::{
    at_end,
    check,
    consume,
    desugared_for,
    diagnostic,
    done,
    parse_arguments,
    parse_assignment,
    parse_binary,
    parse_binary_rest,
    parse_block,
    parse_block_items,
    parse_break_statement,
    parse_call,
    parse_call_rest,
    parse_condition,
    parse_continue_statement,
    parse_declaration,
    parse_expression,
    parse_expression_statement,
    parse_finish_call,
    parse_for_clauses,
    parse_for_initializer,
    parse_for_statement,
    parse_from,
    parse_function_declaration,
    parse_function_parameters,
    parse_if_statement,
    parse_optional_expression,
    parse_parameter_list,
    parse_primary,
    parse_print_statement,
    parse_program,
    parse_return_statement,
    parse_statement,
    parse_unary,
    parse_variable_declaration,
    parse_while_statement,
    ForClauses,
    Parsed,
};
use crate::lang::{MAX_ARGUMENTS, MAX_PARAMETERS};
use crate::lang::lexer::{
    terminated,
    token_views,
    Literal,
    LiteralView,
    Token,
    TokenType,
    TokenView,
};

verus! {

/// An expression: code that stands for a value.
#[derive(Debug)]
pub enum Expression {
    Binary { left: Box<Expression>, operator: Token, right: Box<Expression> },
    Logical { left: Box<Expression>, operator: Token, right: Box<Expression> },
    Grouping(Box<Expression>),
    Literal(Literal),
    Unary { operator: Token, right: Box<Expression> },
    Variable(Token),
    Assign { name: Token, value: Box<Expression> },
    Call { callee: Box<Expression>, parenthesis: Token, arguments: Vec<Expression> },
}

/// The mathematical content of an [`Expression`].
pub enum ExpressionView {
    Binary { left: Box<ExpressionView>, operator: TokenView, right: Box<ExpressionView> },
    Logical { left: Box<ExpressionView>, operator: TokenView, right: Box<ExpressionView> },
    Grouping(Box<ExpressionView>),
    Literal(LiteralView),
    Unary { operator: TokenView, right: Box<ExpressionView> },
    Variable(TokenView),
    Assign { name: TokenView, value: Box<ExpressionView> },
    Call { callee: Box<ExpressionView>, parenthesis: TokenView, arguments: Seq<ExpressionView> },
}

impl Expression {
    /// The mathematical content of the expression.
    pub open spec fn view(&self) -> ExpressionView
        decreases self,
    {
        match self {
            Expression::Binary { left, operator, right } => ExpressionView::Binary {
                left: Box::new(left.view()),
                operator: operator@,
                right: Box::new(right.view()),
            },
            Expression::Logical { left, operator, right } => ExpressionView::Logical {
                left: Box::new(left.view()),
                operator: operator@,
                right: Box::new(right.view()),
            },
            Expression::Grouping(inner) => ExpressionView::Grouping(Box::new(inner.view())),
            Expression::Literal(value) => ExpressionView::Literal(value@),
            Expression::Unary { operator, right } => ExpressionView::Unary {
                operator: operator@,
                right: Box::new(right.view()),
            },
            Expression::Variable(name) => ExpressionView::Variable(name@),
            Expression::Assign { name, value } => ExpressionView::Assign {
                name: name@,
                value: Box::new(value.view()),
            },
            Expression::Call { callee, parenthesis, arguments } => ExpressionView::Call {
                callee: Box::new(callee.view()),
                parenthesis: parenthesis@,
                arguments: Seq::new(
                    arguments.len() as nat,
                    |i: int|
                        if 0 <= i < arguments.len() {
                            arguments[i].view()
                        } else {
                            ExpressionView::Literal(LiteralView::Nil)
                        },
                ),
            },
        }
    }
}

/// The views of a list of expressions, in order.
pub open spec fn expression_views(expressions: Seq<Expression>) -> Seq<ExpressionView> {
    Seq::new(expressions.len(), |i: int| expressions[i]@)
}

/// The view of an optional expression.
pub open spec fn optional_expression_view(expression: Option<Expression>) -> Option<
    ExpressionView,
> {
    match expression {
        Some(e) => Some(e@),
        None => None,
    }
}

/// A statement: code that is run for what it does.
///
/// There is no node for a `for` loop: the parser rewrites it into a block
/// that holds its initializer and a `while` loop.
#[derive(Debug)]
pub enum Statement {
    Expression(Expression),
    Print(Expression),
    Variable { name: Token, initializer: Option<Expression> },
    Block(Vec<Statement>),
    If { condition: Expression, then_branch: Box<Statement>, else_branch: Option<Box<Statement>> },
    While { condition: Expression, body: Box<Statement> },
    Function { name: Token, parameters: Vec<Token>, body: Box<Statement> },
    Return { keyword: Token, value: Option<Expression> },
    Break { keyword: Token },
    Continue { keyword: Token },
}

/// The mathematical content of a [`Statement`].
pub enum StatementView {
    Expression(ExpressionView),
    Print(ExpressionView),
    Variable { name: TokenView, initializer: Option<ExpressionView> },
    Block(Seq<StatementView>),
    If {
        condition: ExpressionView,
        then_branch: Box<StatementView>,
        else_branch: Option<Box<StatementView>>,
    },
    While { condition: ExpressionView, body: Box<StatementView> },
    Function { name: TokenView, parameters: Seq<TokenView>, body: Box<StatementView> },
    Return { keyword: TokenView, value: Option<ExpressionView> },
    Break { keyword: TokenView },
    Continue { keyword: TokenView },
}

impl Statement {
    /// The mathematical content of the statement.
    pub open spec fn view(&self) -> StatementView
        decreases self,
    {
        match self {
            Statement::Expression(e) => StatementView::Expression(e@),
            Statement::Print(e) => StatementView::Print(e@),
            Statement::Variable { name, initializer } => StatementView::Variable {
                name: name@,
                initializer: optional_expression_view(*initializer),
            },
            Statement::Block(statements) => StatementView::Block(
                Seq::new(
                    statements.len() as nat,
                    |i: int|
                        if 0 <= i < statements.len() {
                            statements[i].view()
                        } else {
                            StatementView::Block(Seq::empty())
                        },
                ),
            ),
            Statement::If { condition, then_branch, else_branch } => StatementView::If {
                condition: condition@,
                then_branch: Box::new(then_branch.view()),
                else_branch: match else_branch {
                    Some(s) => Some(Box::new(s.view())),
                    None => None,
                },
            },
            Statement::While { condition, body } => StatementView::While {
                condition: condition@,
                body: Box::new(body.view()),
            },
            Statement::Function { name, parameters, body } => StatementView::Function {
                name: name@,
                parameters: token_views(parameters@),
                body: Box::new(body.view()),
            },
            Statement::Return { keyword, value } => StatementView::Return {
                keyword: keyword@,
                value: optional_expression_view(*value),
            },
            Statement::Break { keyword } => StatementView::Break { keyword: keyword@ },
            Statement::Continue { keyword } => StatementView::Continue { keyword: keyword@ },
        }
    }
}

impl Expression {
    /// A copy of the expression.
    fn copy(&self) -> (r: Self)
        ensures
            r@ == self@,
        decreases self,
    {
        match self {
            Expression::Binary { left, operator, right } => Expression::Binary {
                left: Box::new(left.copy()),
                operator: operator.clone(),
                right: Box::new(right.copy()),
            },
            Expression::Logical { left, operator, right } => Expression::Logical {
                left: Box::new(left.copy()),
                operator: operator.clone(),
                right: Box::new(right.copy()),
            },
            Expression::Grouping(inner) => Expression::Grouping(Box::new(inner.copy())),
            Expression::Literal(value) => Expression::Literal(value.clone()),
            Expression::Unary { operator, right } => Expression::Unary {
                operator: operator.clone(),
                right: Box::new(right.copy()),
            },
            Expression::Variable(name) => Expression::Variable(name.clone()),
            Expression::Assign { name, value } => Expression::Assign {
                name: name.clone(),
                value: Box::new(value.copy()),
            },
            Expression::Call { callee, parenthesis, arguments } => {
                let mut copies: Vec<Expression> = Vec::new();
                let mut i: usize = 0;
                while i < arguments.len()
                    invariant
                        i <= arguments.len(),
                        copies.len() == i,
                        forall|j: int| 0 <= j < i ==> copies@[j]@ == arguments@[j]@,
                        self matches Expression::Call { arguments: a, .. } && a == arguments,
                    decreases arguments.len() - i,
                {
                    copies.push(arguments[i].copy());
                    i += 1;
                }
                let call = Expression::Call {
                    callee: Box::new(callee.copy()),
                    parenthesis: parenthesis.clone(),
                    arguments: copies,
                };
                assert(call@->Call_arguments =~= self@->Call_arguments);
                call
            },
        }
    }
}

impl Clone for Expression {
    fn clone(&self) -> (r: Self)
        ensures
            r@ == self@,
    {
        self.copy()
    }
}

impl Statement {
    /// A copy of the statement.
    fn copy(&self) -> (r: Self)
        ensures
            r@ == self@,
        decreases self,
    {
        match self {
            Statement::Expression(e) => Statement::Expression(e.clone()),
            Statement::Print(e) => Statement::Print(e.clone()),
            Statement::Variable { name, initializer } => Statement::Variable {
                name: name.clone(),
                initializer: match initializer {
                    Some(e) => Some(e.clone()),
                    None => None,
                },
            },
            Statement::Block(statements) => {
                let mut copies: Vec<Statement> = Vec::new();
                let mut i: usize = 0;
                while i < statements.len()
                    invariant
                        i <= statements.len(),
                        copies.len() == i,
                        forall|j: int| 0 <= j < i ==> copies@[j]@ == statements@[j]@,
                        self matches Statement::Block(s) && s == statements,
                    decreases statements.len() - i,
                {
                    copies.push(statements[i].copy());
                    i += 1;
                }
                let block = Statement::Block(copies);
                assert(block@->Block_0 =~= self@->Block_0);
                block
            },
            Statement::If { condition, then_branch, else_branch } => Statement::If {
                condition: condition.clone(),
                then_branch: Box::new(then_branch.copy()),
                else_branch: match else_branch {
                    Some(s) => Some(Box::new(s.copy())),
                    None => None,
                },
            },
            Statement::While { condition, body } => Statement::While {
                condition: condition.clone(),
                body: Box::new(body.copy()),
            },
            Statement::Function { name, parameters, body } => {
                let mut copies: Vec<Token> = Vec::new();
                let mut i: usize = 0;
                while i < parameters.len()
                    invariant
                        i <= parameters.len(),
                        copies.len() == i,
                        forall|j: int| 0 <= j < i ==> copies@[j]@ == parameters@[j]@,
                    decreases parameters.len() - i,
                {
                    copies.push(parameters[i].clone());
                    i += 1;
                }
                assert(token_views(copies@) =~= token_views(parameters@));
                Statement::Function {
                    name: name.clone(),
                    parameters: copies,
                    body: Box::new(body.copy()),
                }
            },
            Statement::Return { keyword, value } => Statement::Return {
                keyword: keyword.clone(),
                value: match value {
                    Some(e) => Some(e.clone()),
                    None => None,
                },
            },
            Statement::Break { keyword } => Statement::Break { keyword: keyword.clone() },
            Statement::Continue { keyword } => Statement::Continue { keyword: keyword.clone() },
        }
    }
}

impl Clone for Statement {
    fn clone(&self) -> (r: Self)
        ensures
            r@ == self@,
    {
        self.copy()
    }
}

/// The views of a list of statements, in order.
pub open spec fn statement_views(statements: Seq<Statement>) -> Seq<StatementView> {
    Seq::new(statements.len(), |i: int| statements[i]@)
}


/// The view of an optional token.
pub open spec fn optional_token_view(token: Option<Token>) -> Option<TokenView> {
    match token {
        Some(t) => Some(t@),
        None => None,
    }
}

/// The view of an optional statement.
pub open spec fn optional_statement_view(statement: Option<Statement>) -> Option<StatementView> {
    match statement {
        Some(s) => Some(s@),
        None => None,
    }
}

/// The view of what [`Parser::parse`] returns.
pub open spec fn parse_result_view(result: Result<Vec<Statement>, Vec<Error>>) -> Result<
    Seq<StatementView>,
    Seq<ErrorView>,
> {
    match result {
        Ok(statements) => Ok(statement_views(statements@)),
        Err(errors) => Err(error_views(errors@)),
    }
}

/// A parser: the tokens, the index of the next one, and the diagnostics
/// recorded so far.
#[derive(Debug)]
pub struct Parser {
    tokens: Vec<Token>,
    current: usize,
    errors: Vec<Error>,
    had_error: bool,
}

impl Parser {
    /// The tokens that the parser reads.
    pub closed spec fn stream(&self) -> Seq<TokenView> {
        token_views(self.tokens@)
    }

    /// The index of the next token.
    pub closed spec fn position(&self) -> int {
        self.current as int
    }

    /// The diagnostics recorded so far.
    pub closed spec fn diagnostics(&self) -> Seq<ErrorView> {
        error_views(self.errors@)
    }

    /// What holds of every parser: its tokens end with the end token, the
    /// next token is one of them, and `had_error` says whether a diagnostic
    /// was recorded.
    pub closed spec fn wf(&self) -> bool {
        &&& terminated(self.stream())
        &&& self.current < self.tokens.len()
        &&& self.had_error == (self.errors.len() > 0)
    }

    /// The parser `self` is `before` after some parsing: the tokens are the
    /// same and the index did not move back.
    pub closed spec fn follows(&self, before: &Parser) -> bool {
        &&& self.wf()
        &&& self.tokens == before.tokens
        &&& self.current >= before.current
    }

    /// What the parser found, as the grammar states it.
    pub closed spec fn found<T>(&self, value: Option<T>) -> Parsed<T> {
        Parsed { value, pos: self.position(), errors: self.diagnostics() }
    }

    /// The parser `self` is `before` after it parsed what `expected` says,
    /// with `value` as the result; where it found a value, it read at
    /// least one token; and where it found none, it recorded a diagnostic.
    pub closed spec fn parsed<T>(&self, before: &Parser, value: Option<T>, expected: Parsed<T>) -> bool {
        &&& self.follows(before)
        &&& self.found(value) == expected
        &&& value is Some ==> self.current > before.current
        &&& value is None ==> self.had_error
    }

    /// The number of tokens from the next one on.
    pub closed spec fn remaining(&self) -> int {
        self.tokens.len() - self.current
    }

    /// A parser at the start of `tokens`, with no diagnostic.
    pub fn new(tokens: &[Token]) -> (parser: Self)
        requires
            terminated(token_views(tokens@)),
        ensures
            parser.wf(),
            parser.stream() == token_views(tokens@),
            parser.position() == 0,
            parser.diagnostics() == Seq::<ErrorView>::empty(),
    {
        let mut copy: Vec<Token> = Vec::new();
        let mut i: usize = 0;
        while i < tokens.len()
            invariant
                i <= tokens.len(),
                copy.len() == i,
                forall|j: int| 0 <= j < i ==> copy@[j]@ == tokens@[j]@,
            decreases tokens.len() - i,
        {
            copy.push(tokens[i].clone());
            i += 1;
        }
        assert(token_views(copy@) =~= token_views(tokens@));
        let parser = Parser { tokens: copy, current: 0, errors: Vec::new(), had_error: false };
        assert(parser.diagnostics() =~= Seq::<ErrorView>::empty());
        parser
    }

    fn peek(&self) -> (token: &Token)
        requires
            self.wf(),
        ensures
            token@ == self.stream()[self.position()],
            *token == self.tokens@[self.position()],
    {
        &self.tokens[self.current]
    }

    fn is_at_end(&self) -> (b: bool)
        requires
            self.wf(),
        ensures
            b == at_end(self.stream(), self.position()),
    {
        self.peek().token_type == TokenType::Eof
    }

    fn check(&self, token_type: TokenType) -> (b: bool)
        requires
            self.wf(),
        ensures
            b == check(self.stream(), self.position(), token_type),
    {
        if self.is_at_end() {
            false
        } else {
            self.peek().token_type == token_type
        }
    }

    fn advance(&mut self)
        requires
            old(self).wf(),
        ensures
            final(self).follows(old(self)),
            final(self).errors == old(self).errors,
            final(self).position() == if at_end(old(self).stream(), old(self).position()) {
                old(self).position()
            } else {
                old(self).position() + 1
            },
    {
        if !self.is_at_end() {
            self.current += 1;
        }
    }

    fn previous(&self) -> (token: &Token)
        requires
            self.wf(),
            self.position() > 0,
        ensures
            token@ == self.stream()[self.position() - 1],
    {
        &self.tokens[self.current - 1]
    }

    fn matches(&mut self, types: &[TokenType]) -> (b: bool)
        requires
            old(self).wf(),
        ensures
            final(self).follows(old(self)),
            final(self).errors == old(self).errors,
            b == (!at_end(old(self).stream(), old(self).position()) && types@.contains(
                old(self).stream()[old(self).position()].token_type,
            )),
            final(self).position() == if b {
                old(self).position() + 1
            } else {
                old(self).position()
            },
            types@.len() == 1 ==> b == check(old(self).stream(), old(self).position(), types@[0]),
            types@.len() == 2 ==> b == (check(old(self).stream(), old(self).position(), types@[0])
                || check(old(self).stream(), old(self).position(), types@[1])),
    {
        let mut i: usize = 0;
        while i < types.len()
            invariant
                i <= types.len(),
                self.wf(),
                *self == *old(self),
                forall|j: int|
                    0 <= j < i ==> !check(self.stream(), self.position(), #[trigger] types@[j]),
            decreases types.len() - i,
        {
            if self.check(types[i]) {
                self.advance();
                return true;
            }
            i += 1;
        }
        false
    }

    /// Records the diagnostic for `message` at `token`.
    fn error(&mut self, token: &Token, message: &str)
        requires
            old(self).wf(),
        ensures
            final(self).follows(old(self)),
            final(self).current == old(self).current,
            final(self).diagnostics() == old(self).diagnostics().push(
                diagnostic(token@, message@),
            ),
            final(self).had_error,
    {
        let text = if token.token_type == TokenType::Eof {
            let mut text = String::from_str(message);
            text.append(" at end");
            text
        } else {
            let mut text = token.lexeme.clone();
            text.append(" at '");
            text.append(message);
            text.append("'");
            text
        };
        let ghost before = self.diagnostics();
        self.errors.push(
            Error { line: token.line as usize, column: token.column as usize, message: text },
        );
        self.had_error = true;
        assert(self.diagnostics() =~= before.push(diagnostic(token@, message@)));
    }

    fn consume(&mut self, token_type: TokenType, message: &str) -> (token: Option<Token>)
        requires
            old(self).wf(),
        ensures
            final(self).follows(old(self)),
            final(self).found(optional_token_view(token)) == consume(
                old(self).stream(),
                old(self).position(),
                old(self).diagnostics(),
                token_type,
                message@,
            ),
            token is None ==> final(self).had_error,
    {
        if self.check(token_type) {
            let token = self.peek().clone();
            self.advance();
            Some(token)
        } else {
            let token = self.peek().clone();
            self.error(&token, message);
            None
        }
    }

    /// expression → assignment
    fn expression(&mut self) -> (r: Option<Expression>)
        requires
            old(self).wf(),
        ensures
            final(self).parsed(
                old(self),
                optional_expression_view(r),
                parse_expression(
                    old(self).stream(),
                    old(self).position(),
                    old(self).diagnostics(),
                ),
            ),
        decreases old(self).remaining(), 22int,
    {
        self.assignment()
    }

    /// assignment → logic-or ( `=` assignment )?
    fn assignment(&mut self) -> (r: Option<Expression>)
        requires
            old(self).wf(),
        ensures
            final(self).parsed(
                old(self),
                optional_expression_view(r),
                parse_assignment(
                    old(self).stream(),
                    old(self).position(),
                    old(self).diagnostics(),
                ),
            ),
        decreases old(self).remaining(), 21int,
    {
        let expression = match self.or() {
            Some(e) => e,
            None => return None,
        };
        if self.matches(&[TokenType::Equal]) {
            let equals = self.previous().clone();
            let value = match self.assignment() {
                Some(v) => v,
                None => return None,
            };
            match expression {
                Expression::Variable(name) => Some(
                    Expression::Assign { name, value: Box::new(value) },
                ),
                _ => {
                    self.error(&equals, "Invalid assignment target!");
                    None
                },
            }
        } else {
            Some(expression)
        }
    }

    /// logic-or → logic-and ( `or` logic-and )*
    fn or(&mut self) -> (r: Option<Expression>)
        requires
            old(self).wf(),
        ensures
            final(self).parsed(
                old(self),
                optional_expression_view(r),
                parse_binary(
                    old(self).stream(),
                    0,
                    old(self).position(),
                    old(self).diagnostics(),
                ),
            ),
        decreases old(self).remaining(), 20int,
    {
        let mut expression = match self.and() {
            Some(e) => e,
            None => return None,
        };
        loop
            invariant
                self.follows(old(self)),
                self.current > old(self).current,
                parse_binary(
                    old(self).stream(),
                    0,
                    old(self).position(),
                    old(self).diagnostics(),
                ) == parse_binary_rest(
                    self.stream(),
                    0,
                    expression@,
                    self.position(),
                    self.diagnostics(),
                ),
            decreases self.remaining(),
        {
            if !self.matches(&[TokenType::Or]) {
                return Some(expression);
            }
            let operator = self.previous().clone();
            let right = match self.and() {
                Some(e) => e,
                None => return None,
            };
            expression =
            Expression::Logical { left: Box::new(expression), operator, right: Box::new(right) };
        }
    }

    /// logic-and → equality ( `and` equality )*
    fn and(&mut self) -> (r: Option<Expression>)
        requires
            old(self).wf(),
        ensures
            final(self).parsed(
                old(self),
                optional_expression_view(r),
                parse_binary(
                    old(self).stream(),
                    1,
                    old(self).position(),
                    old(self).diagnostics(),
                ),
            ),
        decreases old(self).remaining(), 18int,
    {
        let mut expression = match self.equality() {
            Some(e) => e,
            None => return None,
        };
        loop
            invariant
                self.follows(old(self)),
                self.current > old(self).current,
                parse_binary(
                    old(self).stream(),
                    1,
                    old(self).position(),
                    old(self).diagnostics(),
                ) == parse_binary_rest(
                    self.stream(),
                    1,
                    expression@,
                    self.position(),
                    self.diagnostics(),
                ),
            decreases self.remaining(),
        {
            if !self.matches(&[TokenType::And]) {
                return Some(expression);
            }
            let operator = self.previous().clone();
            let right = match self.equality() {
                Some(e) => e,
                None => return None,
            };
            expression =
            Expression::Logical { left: Box::new(expression), operator, right: Box::new(right) };
        }
    }

    /// equality → comparison ( ( `!=` | `==` ) comparison )*
    fn equality(&mut self) -> (r: Option<Expression>)
        requires
            old(self).wf(),
        ensures
            final(self).parsed(
                old(self),
                optional_expression_view(r),
                parse_binary(
                    old(self).stream(),
                    2,
                    old(self).position(),
                    old(self).diagnostics(),
                ),
            ),
        decreases old(self).remaining(), 16int,
    {
        let mut expression = match self.comparison() {
            Some(e) => e,
            None => return None,
        };
        loop
            invariant
                self.follows(old(self)),
                self.current > old(self).current,
                parse_binary(
                    old(self).stream(),
                    2,
                    old(self).position(),
                    old(self).diagnostics(),
                ) == parse_binary_rest(
                    self.stream(),
                    2,
                    expression@,
                    self.position(),
                    self.diagnostics(),
                ),
            decreases self.remaining(),
        {
            if !self.matches(&[TokenType::BangEqual, TokenType::EqualEqual]) {
                return Some(expression);
            }
            let operator = self.previous().clone();
            let right = match self.comparison() {
                Some(e) => e,
                None => return None,
            };
            expression =
            Expression::Binary { left: Box::new(expression), operator, right: Box::new(right) };
        }
    }

    /// comparison → term ( ( `>` | `>=` | `<` | `<=` ) term )*
    fn comparison(&mut self) -> (r: Option<Expression>)
        requires
            old(self).wf(),
        ensures
            final(self).parsed(
                old(self),
                optional_expression_view(r),
                parse_binary(
                    old(self).stream(),
                    3,
                    old(self).position(),
                    old(self).diagnostics(),
                ),
            ),
        decreases old(self).remaining(), 14int,
    {
        let mut expression = match self.term() {
            Some(e) => e,
            None => return None,
        };
        loop
            invariant
                self.follows(old(self)),
                self.current > old(self).current,
                parse_binary(
                    old(self).stream(),
                    3,
                    old(self).position(),
                    old(self).diagnostics(),
                ) == parse_binary_rest(
                    self.stream(),
                    3,
                    expression@,
                    self.position(),
                    self.diagnostics(),
                ),
            decreases self.remaining(),
        {
            if !self.matches(&[
                TokenType::Greater,
                TokenType::GreaterEqual,
                TokenType::Less,
                TokenType::LessEqual,
            ]) {
                return Some(expression);
            }
            let operator = self.previous().clone();
            let right = match self.term() {
                Some(e) => e,
                None => return None,
            };
            expression =
            Expression::Binary { left: Box::new(expression), operator, right: Box::new(right) };
        }
    }

    /// term → factor ( ( `-` | `+` ) factor )*
    fn term(&mut self) -> (r: Option<Expression>)
        requires
            old(self).wf(),
        ensures
            final(self).parsed(
                old(self),
                optional_expression_view(r),
                parse_binary(
                    old(self).stream(),
                    4,
                    old(self).position(),
                    old(self).diagnostics(),
                ),
            ),
        decreases old(self).remaining(), 12int,
    {
        let mut expression = match self.factor() {
            Some(e) => e,
            None => return None,
        };
        loop
            invariant
                self.follows(old(self)),
                self.current > old(self).current,
                parse_binary(
                    old(self).stream(),
                    4,
                    old(self).position(),
                    old(self).diagnostics(),
                ) == parse_binary_rest(
                    self.stream(),
                    4,
                    expression@,
                    self.position(),
                    self.diagnostics(),
                ),
            decreases self.remaining(),
        {
            if !self.matches(&[TokenType::Minus, TokenType::Plus]) {
                return Some(expression);
            }
            let operator = self.previous().clone();
            let right = match self.factor() {
                Some(e) => e,
                None => return None,
            };
            expression =
            Expression::Binary { left: Box::new(expression), operator, right: Box::new(right) };
        }
    }

    /// factor → unary ( ( `/` | `*` ) unary )*
    fn factor(&mut self) -> (r: Option<Expression>)
        requires
            old(self).wf(),
        ensures
            final(self).parsed(
                old(self),
                optional_expression_view(r),
                parse_binary(
                    old(self).stream(),
                    5,
                    old(self).position(),
                    old(self).diagnostics(),
                ),
            ),
        decreases old(self).remaining(), 10int,
    {
        let mut expression = match self.unary() {
            Some(e) => e,
            None => return None,
        };
        loop
            invariant
                self.follows(old(self)),
                self.current > old(self).current,
                parse_binary(
                    old(self).stream(),
                    5,
                    old(self).position(),
                    old(self).diagnostics(),
                ) == parse_binary_rest(
                    self.stream(),
                    5,
                    expression@,
                    self.position(),
                    self.diagnostics(),
                ),
            decreases self.remaining(),
        {
            if !self.matches(&[TokenType::Slash, TokenType::Star]) {
                return Some(expression);
            }
            let operator = self.previous().clone();
            let right = match self.unary() {
                Some(e) => e,
                None => return None,
            };
            expression =
            Expression::Binary { left: Box::new(expression), operator, right: Box::new(right) };
        }
    }

    /// unary → ( `!` | `-` ) unary | call
    fn unary(&mut self) -> (r: Option<Expression>)
        requires
            old(self).wf(),
        ensures
            final(self).parsed(
                old(self),
                optional_expression_view(r),
                parse_unary(old(self).stream(), old(self).position(), old(self).diagnostics()),
            ),
        decreases old(self).remaining(), 8int,
    {
        if self.matches(&[TokenType::Bang, TokenType::Minus]) {
            let operator = self.previous().clone();
            let right = match self.unary() {
                Some(e) => e,
                None => return None,
            };
            Some(Expression::Unary { operator, right: Box::new(right) })
        } else {
            self.call()
        }
    }

    /// call → primary ( `(` arguments? `)` )*
    fn call(&mut self) -> (r: Option<Expression>)
        requires
            old(self).wf(),
        ensures
            final(self).parsed(
                old(self),
                optional_expression_view(r),
                parse_call(old(self).stream(), old(self).position(), old(self).diagnostics()),
            ),
        decreases old(self).remaining(), 7int,
    {
        let mut expression = match self.primary() {
            Some(e) => e,
            None => return None,
        };
        loop
            invariant
                self.follows(old(self)),
                self.current > old(self).current,
                parse_call(old(self).stream(), old(self).position(), old(self).diagnostics())
                    == parse_call_rest(
                    self.stream(),
                    expression@,
                    self.position(),
                    self.diagnostics(),
                ),
            decreases self.remaining(),
        {
            if !self.matches(&[TokenType::LeftParen]) {
                return Some(expression);
            }
            expression =
            match self.finish_call(expression) {
                Some(e) => e,
                None => return None,
            };
        }
    }

    /// primary → `false` | `true` | `nil` | number | string | identifier
    ///         | `(` expression `)`
    fn primary(&mut self) -> (r: Option<Expression>)
        requires
            old(self).wf(),
        ensures
            final(self).parsed(
                old(self),
                optional_expression_view(r),
                parse_primary(old(self).stream(), old(self).position(), old(self).diagnostics()),
            ),
        decreases old(self).remaining(), 5int,
    {
        if self.matches(&[TokenType::False]) {
            Some(Expression::Literal(Literal::Boolean(false)))
        } else if self.matches(&[TokenType::True]) {
            Some(Expression::Literal(Literal::Boolean(true)))
        } else if self.matches(&[TokenType::Nil]) {
            Some(Expression::Literal(Literal::Nil))
        } else if self.matches(&[TokenType::Number, TokenType::String]) {
            self.literal()
        } else if self.matches(&[TokenType::Identifier]) {
            Some(Expression::Variable(self.previous().clone()))
        } else if self.matches(&[TokenType::LeftParen]) {
            self.grouping()
        } else {
            let token = self.peek().clone();
            self.error(
                &token,
                "Expected expression ('false', 'true', 'nil', number, string, identifier or '(')!",
            );
            None
        }
    }

    /// The value of the number or string that was just read.
    fn literal(&mut self) -> (r: Option<Expression>)
        requires
            old(self).wf(),
            old(self).position() > 0,
            check(old(self).stream(), old(self).position() - 1, TokenType::Number) || check(
                old(self).stream(),
                old(self).position() - 1,
                TokenType::String,
            ),
        ensures
            final(self).follows(old(self)),
            final(self).current == old(self).current,
            final(self).found(optional_expression_view(r)) == parse_primary(
                old(self).stream(),
                old(self).position() - 1,
                old(self).diagnostics(),
            ),
            r is None ==> final(self).had_error,
    {
        let previous = self.previous().clone();
        if previous.literal.is_none() {
            self.error(&previous, "Expected literal!");
            None
        } else {
            Some(Expression::Literal(previous.literal.unwrap()))
        }
    }

    /// expression `)`, after `(`.
    fn grouping(&mut self) -> (r: Option<Expression>)
        requires
            old(self).wf(),
            old(self).position() > 0,
            check(old(self).stream(), old(self).position() - 1, TokenType::LeftParen),
        ensures
            final(self).follows(old(self)),
            final(self).found(optional_expression_view(r)) == parse_primary(
                old(self).stream(),
                old(self).position() - 1,
                old(self).diagnostics(),
            ),
            r is None ==> final(self).had_error,
        decreases old(self).remaining(), 23int,
    {
        let expression = match self.expression() {
            Some(e) => e,
            None => return None,
        };
        match self.consume(TokenType::RightParen, "Expected ')' after expression!") {
            Some(_) => Some(Expression::Grouping(Box::new(expression))),
            None => None,
        }
    }

    /// arguments? `)`, after the `(` of a call of `callee`.
    fn finish_call(&mut self, callee: Expression) -> (r: Option<Expression>)
        requires
            old(self).wf(),
        ensures
            final(self).parsed(
                old(self),
                optional_expression_view(r),
                parse_finish_call(
                    old(self).stream(),
                    callee@,
                    old(self).position(),
                    old(self).diagnostics(),
                ),
            ),
        decreases old(self).remaining(), 24int,
    {
        let mut arguments: Vec<Expression> = Vec::new();
        assert(expression_views(arguments@) =~= Seq::<ExpressionView>::empty());
        if !self.check(TokenType::RightParen) {
            loop
                invariant_except_break
                    parse_arguments(
                        old(self).stream(),
                        Seq::empty(),
                        old(self).position(),
                        old(self).diagnostics(),
                    ) == parse_arguments(
                        self.stream(),
                        expression_views(arguments@),
                        self.position(),
                        self.diagnostics(),
                    ),
                invariant
                    self.follows(old(self)),
                    !check(old(self).stream(), old(self).position(), TokenType::RightParen),
                ensures
                    parse_arguments(
                        old(self).stream(),
                        Seq::empty(),
                        old(self).position(),
                        old(self).diagnostics(),
                    ) == done(expression_views(arguments@), self.position(), self.diagnostics()),
                decreases self.remaining(),
            {
                if arguments.len() >= MAX_ARGUMENTS {
                    let token = self.peek().clone();
                    self.error(&token, "Cannot have more than 255 arguments.");
                }
                let argument = match self.expression() {
                    Some(e) => e,
                    None => return None,
                };
                let ghost before = expression_views(arguments@);
                arguments.push(argument);
                assert(expression_views(arguments@) =~= before.push(argument@));
                if !self.matches(&[TokenType::Comma]) {
                    break;
                }
            }
        }
        let parenthesis = match self.consume(
            TokenType::RightParen,
            "Expected ')' after arguments.",
        ) {
            Some(t) => t,
            None => return None,
        };
        let call = Expression::Call { callee: Box::new(callee), parenthesis, arguments };
        assert(call@->Call_arguments =~= expression_views(arguments@));
        Some(call)
    }


    /// An expression, unless a token of kind `stop` comes next.
    fn optional_expression(&mut self, stop: TokenType) -> (r: Option<Option<Expression>>)
        requires
            old(self).wf(),
        ensures
            final(self).follows(old(self)),
            final(self).found(optional_value_view(r)) == parse_optional_expression(
                old(self).stream(),
                old(self).position(),
                old(self).diagnostics(),
                stop,
            ),
            r is None ==> final(self).had_error,
    {
        if self.check(stop) {
            Some(None)
        } else {
            match self.expression() {
                Some(e) => Some(Some(e)),
                None => None,
            }
        }
    }

    /// identifier ( `=` expression )? `;`, after `let`.
    fn variable_declaration(&mut self) -> (r: Option<Statement>)
        requires
            old(self).wf(),
        ensures
            final(self).parsed(
                old(self),
                optional_statement_view(r),
                parse_variable_declaration(
                    old(self).stream(),
                    old(self).position(),
                    old(self).diagnostics(),
                ),
            ),
    {
        let name = match self.consume(TokenType::Identifier, "Expected variable name.") {
            Some(t) => t,
            None => return None,
        };
        let initializer = if self.matches(&[TokenType::Equal]) {
            match self.expression() {
                Some(e) => Some(e),
                None => return None,
            }
        } else {
            None
        };
        match self.consume(TokenType::Semicolon, "Expected ';' after variable declaration.") {
            Some(_) => Some(Statement::Variable { name, initializer }),
            None => None,
        }
    }

    /// `(` ( identifier ( `,` identifier )* )? `)`
    fn function_parameters(&mut self) -> (r: Option<Vec<Token>>)
        requires
            old(self).wf(),
        ensures
            final(self).parsed(
                old(self),
                optional_tokens_view(r),
                parse_function_parameters(
                    old(self).stream(),
                    old(self).position(),
                    old(self).diagnostics(),
                ),
            ),
    {
        if self.consume(TokenType::LeftParen, "Expected '(' after function name.").is_none() {
            return None;
        }
        let mut parameters: Vec<Token> = Vec::new();
        assert(token_views(parameters@) =~= Seq::<TokenView>::empty());
        let ghost start = self.position();
        let ghost start_errors = self.diagnostics();
        if !self.check(TokenType::RightParen) {
            loop
                invariant_except_break
                    parse_parameter_list(self.stream(), Seq::empty(), start, start_errors)
                        == parse_parameter_list(
                        self.stream(),
                        token_views(parameters@),
                        self.position(),
                        self.diagnostics(),
                    ),
                invariant
                    self.follows(old(self)),
                    self.position() >= start,
                    check(old(self).stream(), old(self).position(), TokenType::LeftParen),
                    start == old(self).position() + 1,
                    start_errors == old(self).diagnostics(),
                    !check(self.stream(), start, TokenType::RightParen),
                ensures
                    parse_parameter_list(self.stream(), Seq::empty(), start, start_errors) == done(
                        token_views(parameters@),
                        self.position(),
                        self.diagnostics(),
                    ),
                decreases self.remaining(),
            {
                if parameters.len() >= MAX_PARAMETERS {
                    let token = self.peek().clone();
                    self.error(&token, "Cannot have more than 255 parameters.");
                }
                let identifier = match self.consume(
                    TokenType::Identifier,
                    "Expected parameter name.",
                ) {
                    Some(t) => t,
                    None => return None,
                };
                let ghost before = token_views(parameters@);
                parameters.push(identifier);
                assert(token_views(parameters@) =~= before.push(identifier@));
                if !self.matches(&[TokenType::Comma]) {
                    break;
                }
            }
        }
        match self.consume(TokenType::RightParen, "Expected ')' after parameters.") {
            Some(_) => Some(parameters),
            None => None,
        }
    }

    /// declaration → `let` variable-declaration | `fn` function-declaration
    ///             | statement
    fn declaration(&mut self) -> (r: Option<Statement>)
        requires
            old(self).wf(),
        ensures
            final(self).parsed(
                old(self),
                optional_statement_view(r),
                parse_declaration(
                    old(self).stream(),
                    old(self).position(),
                    old(self).diagnostics(),
                ),
            ),
        decreases old(self).remaining(), 11int,
    {
        if self.matches(&[TokenType::Variable]) {
            self.variable_declaration()
        } else if self.matches(&[TokenType::Function]) {
            self.function_declaration()
        } else {
            self.statement()
        }
    }

    /// identifier parameters block, after `fn`.
    fn function_declaration(&mut self) -> (r: Option<Statement>)
        requires
            old(self).wf(),
        ensures
            final(self).parsed(
                old(self),
                optional_statement_view(r),
                parse_function_declaration(
                    old(self).stream(),
                    old(self).position(),
                    old(self).diagnostics(),
                ),
            ),
        decreases old(self).remaining(), 10int,
    {
        let name = match self.consume(TokenType::Identifier, "Expected function name.") {
            Some(t) => t,
            None => return None,
        };
        let parameters = match self.function_parameters() {
            Some(p) => p,
            None => return None,
        };
        let body = match self.block() {
            Some(b) => b,
            None => return None,
        };
        Some(Statement::Function { name, parameters, body: Box::new(body) })
    }

    /// block → `{` declaration* `}`
    fn block(&mut self) -> (r: Option<Statement>)
        requires
            old(self).wf(),
        ensures
            final(self).parsed(
                old(self),
                optional_statement_view(r),
                parse_block(
                    old(self).stream(),
                    old(self).position(),
                    old(self).diagnostics(),
                ),
            ),
        decreases old(self).remaining(), 8int,
    {
        if self.consume(TokenType::LeftBrace, "Expected '{' before block.").is_none() {
            return None;
        }
        let mut statements: Vec<Statement> = Vec::new();
        assert(statement_views(statements@) =~= Seq::<StatementView>::empty());
        loop
            invariant_except_break
                parse_block_items(
                    old(self).stream(),
                    Seq::empty(),
                    old(self).position() + 1,
                    old(self).diagnostics(),
                ) == parse_block_items(
                    self.stream(),
                    statement_views(statements@),
                    self.position(),
                    self.diagnostics(),
                ),
            invariant
                self.follows(old(self)),
                self.current > old(self).current,
                check(old(self).stream(), old(self).position(), TokenType::LeftBrace),
            ensures
                parse_block_items(
                    old(self).stream(),
                    Seq::empty(),
                    old(self).position() + 1,
                    old(self).diagnostics(),
                ) == done(statement_views(statements@), self.position(), self.diagnostics()),
            decreases self.remaining(),
        {
            if self.check(TokenType::RightBrace) || self.is_at_end() {
                break;
            }
            let statement = match self.declaration() {
                Some(s) => s,
                None => return None,
            };
            let ghost before = statement_views(statements@);
            statements.push(statement);
            assert(statement_views(statements@) =~= before.push(statement@));
        }
        match self.consume(TokenType::RightBrace, "Expected '}' after block.") {
            Some(_) => Some(block_of(statements)),
            None => None,
        }
    }

    /// statement → `print` … | `return` … | `if` … | `while` … | `for` …
    ///           | `break` `;` | `continue` `;` | block | expression `;`
    fn statement(&mut self) -> (r: Option<Statement>)
        requires
            old(self).wf(),
        ensures
            final(self).parsed(
                old(self),
                optional_statement_view(r),
                parse_statement(
                    old(self).stream(),
                    old(self).position(),
                    old(self).diagnostics(),
                ),
            ),
        decreases old(self).remaining(), 9int,
    {
        if self.matches(&[TokenType::Print]) {
            self.print_statement()
        } else if self.matches(&[TokenType::Return]) {
            self.return_statement()
        } else if self.matches(&[TokenType::If]) {
            self.if_statement()
        } else if self.matches(&[TokenType::While]) {
            self.while_statement()
        } else if self.matches(&[TokenType::For]) {
            self.for_statement()
        } else if self.matches(&[TokenType::Break]) {
            self.break_statement()
        } else if self.matches(&[TokenType::Continue]) {
            self.continue_statement()
        } else if self.check(TokenType::LeftBrace) {
            self.block()
        } else {
            self.expression_statement()
        }
    }

    /// expression `;`, after `print`.
    fn print_statement(&mut self) -> (r: Option<Statement>)
        requires
            old(self).wf(),
        ensures
            final(self).parsed(
                old(self),
                optional_statement_view(r),
                parse_print_statement(
                    old(self).stream(),
                    old(self).position(),
                    old(self).diagnostics(),
                ),
            ),
    {
        let value = match self.expression() {
            Some(e) => e,
            None => return None,
        };
        match self.consume(TokenType::Semicolon, "Expected ';' after value.") {
            Some(_) => Some(Statement::Print(value)),
            None => None,
        }
    }

    /// expression? `;`, after `return`.
    fn return_statement(&mut self) -> (r: Option<Statement>)
        requires
            old(self).wf(),
            old(self).position() > 0,
        ensures
            final(self).parsed(
                old(self),
                optional_statement_view(r),
                parse_return_statement(
                    old(self).stream(),
                    old(self).position(),
                    old(self).diagnostics(),
                ),
            ),
    {
        let keyword = self.previous().clone();
        let value = match self.optional_expression(TokenType::Semicolon) {
            Some(v) => v,
            None => return None,
        };
        match self.consume(TokenType::Semicolon, "Expected ';' after return value.") {
            Some(_) => Some(Statement::Return { keyword, value }),
            None => None,
        }
    }

    /// `(` expression `)`: the condition of an `if` or a `while`.
    fn condition(&mut self, open_message: &str, close_message: &str) -> (r: Option<Expression>)
        requires
            old(self).wf(),
        ensures
            final(self).parsed(
                old(self),
                optional_expression_view(r),
                parse_condition(
                    old(self).stream(),
                    old(self).position(),
                    old(self).diagnostics(),
                    open_message@,
                    close_message@,
                ),
            ),
    {
        if self.consume(TokenType::LeftParen, open_message).is_none() {
            return None;
        }
        let condition = match self.expression() {
            Some(e) => e,
            None => return None,
        };
        match self.consume(TokenType::RightParen, close_message) {
            Some(_) => Some(condition),
            None => None,
        }
    }

    /// `(` expression `)` statement ( `else` statement )?, after `if`.
    fn if_statement(&mut self) -> (r: Option<Statement>)
        requires
            old(self).wf(),
        ensures
            final(self).parsed(
                old(self),
                optional_statement_view(r),
                parse_if_statement(
                    old(self).stream(),
                    old(self).position(),
                    old(self).diagnostics(),
                ),
            ),
        decreases old(self).remaining(), 7int,
    {
        let condition = match self.condition(
            "Expected '(' after 'if'.",
            "Expected ')' after if condition.",
        ) {
            Some(e) => e,
            None => return None,
        };
        let then_branch = match self.statement() {
            Some(s) => s,
            None => return None,
        };
        let else_branch = if self.matches(&[TokenType::Else]) {
            match self.statement() {
                Some(s) => Some(Box::new(s)),
                None => return None,
            }
        } else {
            None
        };
        Some(Statement::If { condition, then_branch: Box::new(then_branch), else_branch })
    }

    /// `(` expression `)` statement, after `while`.
    fn while_statement(&mut self) -> (r: Option<Statement>)
        requires
            old(self).wf(),
        ensures
            final(self).parsed(
                old(self),
                optional_statement_view(r),
                parse_while_statement(
                    old(self).stream(),
                    old(self).position(),
                    old(self).diagnostics(),
                ),
            ),
        decreases old(self).remaining(), 7int,
    {
        let condition = match self.condition(
            "Expected '(' after 'while'.",
            "Expected ')' after while condition.",
        ) {
            Some(e) => e,
            None => return None,
        };
        let body = match self.statement() {
            Some(s) => s,
            None => return None,
        };
        Some(Statement::While { condition, body: Box::new(body) })
    }

    /// The first clause of a `for` loop.
    fn for_initializer(&mut self) -> (r: Option<Option<Statement>>)
        requires
            old(self).wf(),
        ensures
            final(self).parsed(
                old(self),
                optional_initializer_view(r),
                parse_for_initializer(
                    old(self).stream(),
                    old(self).position(),
                    old(self).diagnostics(),
                ),
            ),
    {
        if self.matches(&[TokenType::Semicolon]) {
            Some(None)
        } else if self.matches(&[TokenType::Variable]) {
            match self.variable_declaration() {
                Some(s) => Some(Some(s)),
                None => None,
            }
        } else {
            match self.expression_statement() {
                Some(s) => Some(Some(s)),
                None => None,
            }
        }
    }

    /// `(` initializer condition? `;` increment? `)`, after `for`.
    fn for_clauses(&mut self) -> (r: Option<
        (Option<Statement>, Option<Expression>, Option<Expression>),
    >)
        requires
            old(self).wf(),
        ensures
            final(self).parsed(
                old(self),
                optional_clauses_view(r),
                parse_for_clauses(
                    old(self).stream(),
                    old(self).position(),
                    old(self).diagnostics(),
                ),
            ),
    {
        if self.consume(TokenType::LeftParen, "Expected '(' after 'for'.").is_none() {
            return None;
        }
        let initializer = match self.for_initializer() {
            Some(i) => i,
            None => return None,
        };
        let condition = match self.optional_expression(TokenType::Semicolon) {
            Some(c) => c,
            None => return None,
        };
        if self.consume(TokenType::Semicolon, "Expected ';' after loop condition.").is_none() {
            return None;
        }
        let increment = match self.optional_expression(TokenType::RightParen) {
            Some(i) => i,
            None => return None,
        };
        if self.consume(TokenType::RightParen, "Expected ')' after for clauses.").is_none() {
            return None;
        }
        Some((initializer, condition, increment))
    }

    /// clauses statement, after `for`. The loop is rewritten into a block
    /// and a `while` loop.
    fn for_statement(&mut self) -> (r: Option<Statement>)
        requires
            old(self).wf(),
        ensures
            final(self).parsed(
                old(self),
                optional_statement_view(r),
                parse_for_statement(
                    old(self).stream(),
                    old(self).position(),
                    old(self).diagnostics(),
                ),
            ),
        decreases old(self).remaining(), 7int,
    {
        let (initializer, condition, increment) = match self.for_clauses() {
            Some(c) => c,
            None => return None,
        };
        let body = match self.statement() {
            Some(s) => s,
            None => return None,
        };
        Some(desugar_for(initializer, condition, increment, body))
    }

    /// `;`, after `break`.
    fn break_statement(&mut self) -> (r: Option<Statement>)
        requires
            old(self).wf(),
            old(self).position() > 0,
        ensures
            final(self).parsed(
                old(self),
                optional_statement_view(r),
                parse_break_statement(
                    old(self).stream(),
                    old(self).position(),
                    old(self).diagnostics(),
                ),
            ),
    {
        let keyword = self.previous().clone();
        match self.consume(TokenType::Semicolon, "Expected ';' after 'break'.") {
            Some(_) => Some(Statement::Break { keyword }),
            None => None,
        }
    }

    /// `;`, after `continue`.
    fn continue_statement(&mut self) -> (r: Option<Statement>)
        requires
            old(self).wf(),
            old(self).position() > 0,
        ensures
            final(self).parsed(
                old(self),
                optional_statement_view(r),
                parse_continue_statement(
                    old(self).stream(),
                    old(self).position(),
                    old(self).diagnostics(),
                ),
            ),
    {
        let keyword = self.previous().clone();
        match self.consume(TokenType::Semicolon, "Expected ';' after 'continue'.") {
            Some(_) => Some(Statement::Continue { keyword }),
            None => None,
        }
    }

    /// expression `;`
    fn expression_statement(&mut self) -> (r: Option<Statement>)
        requires
            old(self).wf(),
        ensures
            final(self).parsed(
                old(self),
                optional_statement_view(r),
                parse_expression_statement(
                    old(self).stream(),
                    old(self).position(),
                    old(self).diagnostics(),
                ),
            ),
    {
        let value = match self.expression() {
            Some(e) => e,
            None => return None,
        };
        match self.consume(TokenType::Semicolon, "Expected ';' after expression.") {
            Some(_) => Some(Statement::Expression(value)),
            None => None,
        }
    }

    /// Parses the tokens from the next one on: the statements of the
    /// program, or the diagnostics.
    ///
    /// Parsing stops at the first token that the grammar does not allow
    /// where it stands, and no further declaration is read once a
    /// diagnostic was recorded; there is no attempt to go on behind an
    /// error. The diagnostics are returned together, and stay with the
    /// parser; the parser stays where parsing ended.
    pub fn parse(&mut self) -> (r: Result<Vec<Statement>, Vec<Error>>)
        requires
            old(self).wf(),
        ensures
            final(self).wf(),
            final(self).stream() == old(self).stream(),
            parse_result_view(r) == parse_from(
                old(self).stream(),
                old(self).position(),
                old(self).diagnostics(),
            ),
            r matches Err(errors) ==> errors@.len() > 0,
            final(self).position() == parse_program(
                old(self).stream(),
                Seq::empty(),
                old(self).position(),
                old(self).diagnostics(),
            ).pos,
            final(self).diagnostics() == parse_program(
                old(self).stream(),
                Seq::empty(),
                old(self).position(),
                old(self).diagnostics(),
            ).errors,
    {
        let mut statements: Vec<Statement> = Vec::new();
        assert(statement_views(statements@) =~= Seq::<StatementView>::empty());
        loop
            invariant_except_break
                parse_program(
                    old(self).stream(),
                    Seq::empty(),
                    old(self).position(),
                    old(self).diagnostics(),
                ) == parse_program(
                    self.stream(),
                    statement_views(statements@),
                    self.position(),
                    self.diagnostics(),
                ),
            invariant
                self.follows(old(self)),
            ensures
                parse_program(
                    old(self).stream(),
                    Seq::empty(),
                    old(self).position(),
                    old(self).diagnostics(),
                ) == done(statement_views(statements@), self.position(), self.diagnostics()),
            decreases self.remaining(),
        {
            if self.is_at_end() || self.had_error {
                break;
            }
            let statement = match self.declaration() {
                Some(s) => s,
                None => return Err(clone_errors(&self.errors)),
            };
            let ghost before = statement_views(statements@);
            statements.push(statement);
            assert(statement_views(statements@) =~= before.push(statement@));
        }
        if self.had_error {
            Err(clone_errors(&self.errors))
        } else {
            Ok(statements)
        }
    }
}

/// The view of an optional list of tokens.
pub open spec fn optional_tokens_view(tokens: Option<Vec<Token>>) -> Option<Seq<TokenView>> {
    match tokens {
        Some(t) => Some(token_views(t@)),
        None => None,
    }
}

/// The view of an optional expression that may have been found or not.
pub open spec fn optional_value_view(value: Option<Option<Expression>>) -> Option<
    Option<ExpressionView>,
> {
    match value {
        Some(v) => Some(optional_expression_view(v)),
        None => None,
    }
}

/// The view of the clauses of a `for` loop.
pub open spec fn optional_clauses_view(
    clauses: Option<(Option<Statement>, Option<Expression>, Option<Expression>)>,
) -> Option<ForClauses> {
    match clauses {
        Some(c) => Some(
            ForClauses {
                initializer: optional_statement_view(c.0),
                condition: optional_expression_view(c.1),
                increment: optional_expression_view(c.2),
            },
        ),
        None => None,
    }
}

/// The view of an optional statement that may have been found or not.
pub open spec fn optional_initializer_view(value: Option<Option<Statement>>) -> Option<
    Option<StatementView>,
> {
    match value {
        Some(v) => Some(optional_statement_view(v)),
        None => None,
    }
}

/// The block of `statements`.
fn block_of(statements: Vec<Statement>) -> (r: Statement)
    ensures
        r@ == StatementView::Block(statement_views(statements@)),
{
    let block = Statement::Block(statements);
    assert(block@->Block_0 =~= statement_views(statements@));
    block
}

/// The block of one statement.
fn block_of_one(first: Statement) -> (r: Statement)
    ensures
        r@ == StatementView::Block(seq![first@]),
{
    let mut statements: Vec<Statement> = Vec::new();
    statements.push(first);
    assert(statement_views(statements@) =~= seq![first@]);
    block_of(statements)
}

/// The block of two statements.
fn block_of_two(first: Statement, second: Statement) -> (r: Statement)
    ensures
        r@ == StatementView::Block(seq![first@, second@]),
{
    let mut statements: Vec<Statement> = Vec::new();
    statements.push(first);
    statements.push(second);
    assert(statement_views(statements@) =~= seq![first@, second@]);
    block_of(statements)
}

/// Rewrites a `for` loop: a block that holds the initializer, if there is
/// one, and a `while` loop. The loop's condition is `condition`, or `true`
/// where there is none; its body is `body`, or, where there is an
/// increment, a block of `body` and the increment as an expression
/// statement.
pub fn desugar_for(
    initializer: Option<Statement>,
    condition: Option<Expression>,
    increment: Option<Expression>,
    body: Statement,
) -> (r: Statement)
    ensures
        r@ == desugared_for(
            ForClauses {
                initializer: optional_statement_view(initializer),
                condition: optional_expression_view(condition),
                increment: optional_expression_view(increment),
            },
            body@,
        ),
{
    let stepped = match increment {
        Some(i) => block_of_two(body, Statement::Expression(i)),
        None => body,
    };
    let condition = match condition {
        Some(c) => c,
        None => Expression::Literal(Literal::Boolean(true)),
    };
    let repeated = Statement::While { condition, body: Box::new(stepped) };
    match initializer {
        Some(i) => block_of_two(i, repeated),
        None => block_of_one(repeated),
    }
}

} // verus!
