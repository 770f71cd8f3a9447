//! Writing a program out as text that the scanner and the parser read
//! back.

use vstd::prelude::*;
use vstd::string::*;
use crate::lang::lexer::{Literal, Token, TokenType, TokenView};
use crate::lang::laws::scanning::{lexemes, spaced};
use crate::lang::parser::{
    expression_views,
    statement_views,
    Expression,
    Statement,
};
use crate::lang::rendering::{
    argument_tokens,
    expression_tokens,
    fixed_token,
    literal_token,
    parameter_tokens,
    placeless,
    rendered,
    statement_tokens,
    statements_tokens,
};
use crate::lang::laws::statements::{
    lemma_parameters_are_written,
    lemma_statement_is_written,
    lemma_statements_are_written,
    semicolon,
};

verus! {

/// Words in a row with one more word behind them: the row, a space and the
/// word, or the word alone where the row is empty.
proof fn lemma_spaced_push(words: Seq<Seq<char>>, word: Seq<char>)
    ensures
        spaced(words.push(word)) == if words.len() == 0 {
            word
        } else {
            spaced(words) + seq![' '] + word
        },
    decreases words.len(),
{
    if words.len() == 0 {
        assert(words.push(word).len() == 1);
    } else {
        let rest = words.drop_first();
        assert(words.push(word).drop_first() =~= rest.push(word));
        assert(words.push(word)[0] == words[0]);
        lemma_spaced_push(rest, word);
        if rest.len() == 0 {
            assert(spaced(words) == words[0]);
        } else {
            assert(spaced(words.push(word)) =~= spaced(words) + seq![' '] + word);
        }
    }
}

/// The lexemes of a row of tokens are the lexemes of its parts.
proof fn lemma_lexemes_row(a: Seq<TokenView>, b: Seq<TokenView>)
    ensures
        lexemes(a + b) == lexemes(a) + lexemes(b),
{
    assert(lexemes(a + b) =~= lexemes(a) + lexemes(b));
}

/// The lexeme of one token.
proof fn lemma_lexemes_one(t: TokenView)
    ensures
        lexemes(seq![t]) == seq![t.lexeme],
        lexemes(Seq::<TokenView>::empty()) == Seq::<Seq<char>>::empty(),
{
    assert(lexemes(seq![t]) =~= seq![t.lexeme]);
    assert(lexemes(Seq::<TokenView>::empty()) =~= Seq::<Seq<char>>::empty());
}

/// A text in the making: the words written so far, with one space between
/// each two.
struct Writer {
    text: String,
    words: Ghost<Seq<Seq<char>>>,
    started: bool,
}

impl Writer {
    /// What holds of every writer: its text is its words in a row.
    spec fn wf(&self) -> bool {
        &&& self.text@ == spaced(self.words@)
        &&& self.started == (self.words@.len() > 0)
    }

    /// Whether the writer `self` is `before` with the lexemes of `tokens`
    /// written behind its words.
    spec fn wrote(&self, before: &Writer, tokens: Seq<TokenView>) -> bool {
        &&& self.wf()
        &&& self.words@ == before.words@ + lexemes(tokens)
    }

    fn new() -> (writer: Self)
        ensures
            writer.wf(),
            writer.words@ == Seq::<Seq<char>>::empty(),
    {
        Writer { text: String::new(), words: Ghost(Seq::empty()), started: false }
    }

    /// Writes a space, unless nothing is written yet.
    fn space(&mut self)
        ensures
            final(self).words == old(self).words,
            final(self).started == old(self).started,
            final(self).text@ == if old(self).started {
                old(self).text@ + seq![' ']
            } else {
                old(self).text@
            },
    {
        if self.started {
            self.text.push(' ');
        }
    }

    /// Writes the word `word`.
    fn word(&mut self, word: &str)
        requires
            old(self).wf(),
        ensures
            final(self).wf(),
            final(self).words@ == old(self).words@.push(word@),
    {
        proof {
            lemma_spaced_push(self.words@, word@);
        }
        self.space();
        self.text.append(word);
        self.words = Ghost(self.words@.push(word@));
        self.started = true;
    }

    /// Writes `text` between quotes, as one word.
    fn quoted(&mut self, text: &str)
        requires
            old(self).wf(),
        ensures
            final(self).wf(),
            final(self).words@ == old(self).words@.push(seq!['"'] + text@ + seq!['"']),
    {
        let ghost word = seq!['"'] + text@ + seq!['"'];
        let ghost before = self.text@;
        proof {
            lemma_spaced_push(self.words@, word);
        }
        self.space();
        let ghost spaced_before = self.text@;
        self.text.push('"');
        self.text.append(text);
        self.text.push('"');
        assert(self.text@ =~= spaced_before + word);
        self.words = Ghost(self.words@.push(word));
        self.started = true;
    }

    /// Writes the token of a kind that is written in one way.
    fn fixed(&mut self, word: &str, Ghost(kind): Ghost<TokenType>)
        requires
            old(self).wf(),
            crate::lang::laws::scanning::fixed_lexeme(kind) == Some(word@),
        ensures
            final(self).wrote(old(self), seq![fixed_token(kind)]),
    {
        proof {
            lemma_lexemes_one(fixed_token(kind));
        }
        self.word(word);
        assert(self.words@ =~= old(self).words@ + seq![word@]);
    }

    /// Writes a token that the tree holds.
    fn token(&mut self, token: &Token)
        requires
            old(self).wf(),
        ensures
            final(self).wrote(old(self), seq![placeless(token@)]),
    {
        proof {
            lemma_lexemes_one(placeless(token@));
        }
        self.word(token.lexeme.as_str());
        assert(self.words@ =~= old(self).words@ + seq![token@.lexeme]);
    }

    /// Writes a literal value.
    fn literal(&mut self, value: &Literal)
        requires
            old(self).wf(),
        ensures
            final(self).wrote(old(self), seq![literal_token(value@)]),
    {
        proof {
            lemma_lexemes_one(literal_token(value@));
        }
        match value {
            Literal::String(text) => {
                self.quoted(text.as_str());
            },
            Literal::Number(numeral) => {
                self.word(numeral.as_str());
            },
            Literal::Boolean(b) => {
                if *b {
                    self.word("true");
                } else {
                    self.word("false");
                }
            },
            Literal::Nil => {
                self.word("nil");
            },
        }
        assert(self.words@ =~= old(self).words@ + seq![literal_token(value@).lexeme]);
    }

    /// Writes an expression.
    fn expression(&mut self, expression: &Expression)
        requires
            old(self).wf(),
        ensures
            final(self).wrote(old(self), expression_tokens(expression@)),
        decreases expression,
    {
        let ghost start = self.words@;
        match expression {
            Expression::Binary { left, operator, right } => {
                self.expression(left);
                self.token(operator);
                self.expression(right);
                proof {
                    let l = expression_tokens(left@);
                    let o = seq![placeless(operator@)];
                    let r = expression_tokens(right@);
                    lemma_lexemes_row(l, o);
                    lemma_lexemes_row(l + o, r);
                    assert(self.words@ =~= start + lexemes(l + o + r));
                }
            },
            Expression::Logical { left, operator, right } => {
                self.expression(left);
                self.token(operator);
                self.expression(right);
                proof {
                    let l = expression_tokens(left@);
                    let o = seq![placeless(operator@)];
                    let r = expression_tokens(right@);
                    lemma_lexemes_row(l, o);
                    lemma_lexemes_row(l + o, r);
                    assert(self.words@ =~= start + lexemes(l + o + r));
                }
            },
            Expression::Grouping(inner) => {
                self.fixed("(", Ghost(TokenType::LeftParen));
                self.expression(inner);
                self.fixed(")", Ghost(TokenType::RightParen));
                proof {
                    let l = seq![fixed_token(TokenType::LeftParen)];
                    let i = expression_tokens(inner@);
                    let r = seq![fixed_token(TokenType::RightParen)];
                    lemma_lexemes_row(l, i);
                    lemma_lexemes_row(l + i, r);
                    assert(self.words@ =~= start + lexemes(l + i + r));
                }
            },
            Expression::Literal(value) => {
                self.literal(value);
            },
            Expression::Unary { operator, right } => {
                self.token(operator);
                self.expression(right);
                proof {
                    let o = seq![placeless(operator@)];
                    let r = expression_tokens(right@);
                    lemma_lexemes_row(o, r);
                    assert(self.words@ =~= start + lexemes(o + r));
                }
            },
            Expression::Variable(name) => {
                self.token(name);
            },
            Expression::Assign { name, value } => {
                self.token(name);
                self.fixed("=", Ghost(TokenType::Equal));
                self.expression(value);
                proof {
                    let n = seq![placeless(name@)];
                    let e = seq![fixed_token(TokenType::Equal)];
                    let head = seq![placeless(name@), fixed_token(TokenType::Equal)];
                    let v = expression_tokens(value@);
                    assert(head =~= n + e);
                    lemma_lexemes_row(n, e);
                    lemma_lexemes_row(head, v);
                    assert(self.words@ =~= start + lexemes(head + v));
                }
            },
            Expression::Call { callee, parenthesis, arguments } => {
                self.expression(callee);
                self.fixed("(", Ghost(TokenType::LeftParen));
                let ghost list = expression@->Call_arguments;
                assert(list =~= expression_views(arguments@));
                let ghost before = self.words@;
                let mut i: usize = 0;
                while i < arguments.len()
                    invariant
                        i <= arguments.len(),
                        self.wf(),
                        list == expression_views(arguments@),
                        before + lexemes(argument_tokens(list, 0)) == self.words@ + lexemes(
                            argument_tokens(list, i as int),
                        ),
                        expression matches Expression::Call { arguments: a, .. } && a == arguments,
                    decreases arguments.len() - i,
                {
                    let ghost now = self.words@;
                    self.expression(&arguments[i]);
                    proof {
                        let a = expression_tokens(list[i as int]);
                        if i + 1 < arguments.len() {
                            let c = seq![fixed_token(TokenType::Comma)];
                            let rest = argument_tokens(list, i + 1);
                            lemma_lexemes_row(a, c);
                            lemma_lexemes_row(a + c, rest);
                        }
                    }
                    if i + 1 < arguments.len() {
                        self.fixed(",", Ghost(TokenType::Comma));
                        proof {
                            let a = expression_tokens(list[i as int]);
                            let c = seq![fixed_token(TokenType::Comma)];
                            let rest = argument_tokens(list, i + 1);
                            assert(self.words@ + lexemes(rest) =~= now + lexemes(a + c + rest));
                        }
                    } else {
                        proof {
                            lemma_lexemes_one(fixed_token(TokenType::Comma));
                            assert(self.words@ + lexemes(argument_tokens(list, i + 1)) =~= now
                                + lexemes(argument_tokens(list, i as int)));
                        }
                    }
                    i += 1;
                }
                proof {
                    lemma_lexemes_one(fixed_token(TokenType::Comma));
                    assert(self.words@ =~= before + lexemes(argument_tokens(list, 0)));
                }
                self.token(parenthesis);
                proof {
                    let c = expression_tokens(callee@);
                    let l = seq![fixed_token(TokenType::LeftParen)];
                    let a = argument_tokens(list, 0);
                    let p = seq![placeless(parenthesis@)];
                    lemma_lexemes_row(c, l);
                    lemma_lexemes_row(c + l, a);
                    lemma_lexemes_row(c + l + a, p);
                    assert(self.words@ =~= start + lexemes(c + l + a + p));
                }
            },
        }
    }

    /// Writes the parameters of a function, with commas between them.
    fn parameters(&mut self, parameters: &Vec<Token>)
        requires
            old(self).wf(),
        ensures
            final(self).wrote(
                old(self),
                parameter_tokens(crate::lang::lexer::token_views(parameters@), 0),
            ),
    {
        let ghost list = crate::lang::lexer::token_views(parameters@);
        let ghost before = self.words@;
        let mut i: usize = 0;
        while i < parameters.len()
            invariant
                i <= parameters.len(),
                self.wf(),
                list == crate::lang::lexer::token_views(parameters@),
                before + lexemes(parameter_tokens(list, 0)) == self.words@ + lexemes(
                    parameter_tokens(list, i as int),
                ),
            decreases parameters.len() - i,
        {
            let ghost now = self.words@;
            proof {
                lemma_parameters_are_written(list, i as int);
            }
            self.token(&parameters[i]);
            if i + 1 < parameters.len() {
                self.fixed(",", Ghost(TokenType::Comma));
                proof {
                    let t = seq![placeless(list[i as int])];
                    let c = seq![fixed_token(TokenType::Comma)];
                    let head = seq![placeless(list[i as int]), fixed_token(TokenType::Comma)];
                    let rest = parameter_tokens(list, i + 1);
                    assert(head =~= t + c);
                    lemma_lexemes_row(t, c);
                    lemma_lexemes_row(head, rest);
                    assert(self.words@ + lexemes(rest) =~= now + lexemes(head + rest));
                }
            } else {
                proof {
                    lemma_parameters_are_written(list, i + 1);
                    lemma_lexemes_one(fixed_token(TokenType::Comma));
                    assert(self.words@ + lexemes(parameter_tokens(list, i + 1)) =~= now + lexemes(
                        parameter_tokens(list, i as int),
                    ));
                }
            }
            i += 1;
        }
        proof {
            lemma_parameters_are_written(list, i as int);
            lemma_lexemes_one(fixed_token(TokenType::Comma));
            assert(self.words@ =~= before + lexemes(parameter_tokens(list, 0)));
        }
    }

    /// Writes an expression and a `;` behind it.
    fn closed(&mut self, expression: &Expression)
        requires
            old(self).wf(),
        ensures
            final(self).wrote(old(self), expression_tokens(expression@) + semicolon()),
    {
        let ghost start = self.words@;
        self.expression(expression);
        self.fixed(";", Ghost(TokenType::Semicolon));
        proof {
            lemma_lexemes_row(expression_tokens(expression@), semicolon());
            assert(self.words@ =~= start + lexemes(expression_tokens(expression@) + semicolon()));
        }
    }

    /// Writes `(`, a condition and `)` behind the keyword `keyword`.
    fn condition(&mut self, word: &str, Ghost(kind): Ghost<TokenType>, condition: &Expression)
        requires
            old(self).wf(),
            crate::lang::laws::scanning::fixed_lexeme(kind) == Some(word@),
        ensures
            final(self).wrote(
                old(self),
                seq![fixed_token(kind), fixed_token(TokenType::LeftParen)] + expression_tokens(
                    condition@,
                ) + seq![fixed_token(TokenType::RightParen)],
            ),
    {
        let ghost start = self.words@;
        self.fixed(word, Ghost(kind));
        self.fixed("(", Ghost(TokenType::LeftParen));
        self.expression(condition);
        self.fixed(")", Ghost(TokenType::RightParen));
        proof {
            let k = seq![fixed_token(kind)];
            let l = seq![fixed_token(TokenType::LeftParen)];
            let head = seq![fixed_token(kind), fixed_token(TokenType::LeftParen)];
            let c = expression_tokens(condition@);
            let r = seq![fixed_token(TokenType::RightParen)];
            assert(head =~= k + l);
            lemma_lexemes_row(k, l);
            lemma_lexemes_row(head, c);
            lemma_lexemes_row(head + c, r);
            assert(self.words@ =~= start + lexemes(head + c + r));
        }
    }

    /// Writes a statement.
    fn statement(&mut self, statement: &Statement)
        requires
            old(self).wf(),
        ensures
            final(self).wrote(old(self), statement_tokens(statement@)),
        decreases statement,
    {
        let ghost start = self.words@;
        proof {
            lemma_statement_is_written(statement@);
        }
        match statement {
            Statement::Expression(expression) => {
                self.closed(expression);
            },
            Statement::Print(expression) => {
                self.fixed("print", Ghost(TokenType::Print));
                self.closed(expression);
                proof {
                    let p = seq![fixed_token(TokenType::Print)];
                    let e = expression_tokens(expression@);
                    lemma_lexemes_row(p, e + semicolon());
                    assert(p + e + semicolon() =~= p + (e + semicolon()));
                    assert(self.words@ =~= start + lexemes(p + e + semicolon()));
                }
            },
            Statement::Variable { name, initializer } => {
                self.fixed("let", Ghost(TokenType::Variable));
                self.token(name);
                let ghost head = seq![fixed_token(TokenType::Variable), placeless(name@)];
                proof {
                    let l = seq![fixed_token(TokenType::Variable)];
                    let n = seq![placeless(name@)];
                    assert(head =~= l + n);
                    lemma_lexemes_row(l, n);
                    assert(self.words@ =~= start + lexemes(head));
                }
                match initializer {
                    Some(value) => {
                        self.fixed("=", Ghost(TokenType::Equal));
                        self.closed(value);
                        proof {
                            let q = seq![fixed_token(TokenType::Equal)];
                            let e = expression_tokens(value@);
                            lemma_lexemes_row(head, q);
                            lemma_lexemes_row(head + q, e + semicolon());
                            assert(head + (q + e) + semicolon() =~= head + q + (e + semicolon()));
                            assert(self.words@ =~= start + lexemes(
                                head + (q + e) + semicolon(),
                            ));
                        }
                    },
                    None => {
                        self.fixed(";", Ghost(TokenType::Semicolon));
                        proof {
                            lemma_lexemes_row(head, semicolon());
                            assert(self.words@ =~= start + lexemes(head + semicolon()));
                        }
                    },
                }
            },
            Statement::Block(statements) => {
                let ghost list = statement@->Block_0;
                assert(list =~= statement_views(statements@));
                self.fixed("{", Ghost(TokenType::LeftBrace));
                let ghost before = self.words@;
                let mut i: usize = 0;
                while i < statements.len()
                    invariant
                        i <= statements.len(),
                        self.wf(),
                        list == statement_views(statements@),
                        before + lexemes(statements_tokens(list, 0)) == self.words@ + lexemes(
                            statements_tokens(list, i as int),
                        ),
                        statement matches Statement::Block(s) && s == statements,
                    decreases statements.len() - i,
                {
                    let ghost now = self.words@;
                    proof {
                        lemma_statements_are_written(list, i as int);
                        lemma_lexemes_row(
                            statement_tokens(list[i as int]),
                            statements_tokens(list, i + 1),
                        );
                    }
                    self.statement(&statements[i]);
                    proof {
                        assert(self.words@ + lexemes(statements_tokens(list, i + 1)) =~= now
                            + lexemes(statements_tokens(list, i as int)));
                    }
                    i += 1;
                }
                proof {
                    lemma_statements_are_written(list, i as int);
                    lemma_lexemes_one(fixed_token(TokenType::Comma));
                    assert(self.words@ =~= before + lexemes(statements_tokens(list, 0)));
                }
                self.fixed("}", Ghost(TokenType::RightBrace));
                proof {
                    let o = seq![fixed_token(TokenType::LeftBrace)];
                    let s = statements_tokens(list, 0);
                    let c = seq![fixed_token(TokenType::RightBrace)];
                    lemma_lexemes_row(o, s);
                    lemma_lexemes_row(o + s, c);
                    assert(self.words@ =~= start + lexemes(o + s + c));
                }
            },
            Statement::If { condition, then_branch, else_branch } => {
                self.condition("if", Ghost(TokenType::If), condition);
                self.statement(then_branch);
                let ghost head = seq![
                    fixed_token(TokenType::If),
                    fixed_token(TokenType::LeftParen),
                ] + expression_tokens(condition@) + seq![fixed_token(TokenType::RightParen)];
                let ghost first = statement_tokens(then_branch@);
                proof {
                    lemma_lexemes_row(head, first);
                    assert(self.words@ =~= start + lexemes(head + first));
                }
                match else_branch {
                    Some(other) => {
                        self.fixed("else", Ghost(TokenType::Else));
                        self.statement(other);
                        proof {
                            let e = seq![fixed_token(TokenType::Else)];
                            let second = statement_tokens(other@);
                            lemma_lexemes_row(e, second);
                            lemma_lexemes_row(head + first, e + second);
                            assert(self.words@ =~= start + lexemes(head + first + (e + second)));
                        }
                    },
                    None => {},
                }
            },
            Statement::While { condition, body } => {
                self.condition("while", Ghost(TokenType::While), condition);
                self.statement(body);
                proof {
                    let head = seq![
                        fixed_token(TokenType::While),
                        fixed_token(TokenType::LeftParen),
                    ] + expression_tokens(condition@) + seq![fixed_token(TokenType::RightParen)];
                    lemma_lexemes_row(head, statement_tokens(body@));
                    assert(self.words@ =~= start + lexemes(head + statement_tokens(body@)));
                }
            },
            Statement::Function { name, parameters, body } => {
                self.fixed("fn", Ghost(TokenType::Function));
                self.token(name);
                self.fixed("(", Ghost(TokenType::LeftParen));
                self.parameters(parameters);
                self.fixed(")", Ghost(TokenType::RightParen));
                self.statement(body);
                proof {
                    let f = seq![fixed_token(TokenType::Function)];
                    let n = seq![placeless(name@)];
                    let l = seq![fixed_token(TokenType::LeftParen)];
                    let head = seq![
                        fixed_token(TokenType::Function),
                        placeless(name@),
                        fixed_token(TokenType::LeftParen),
                    ];
                    let p = parameter_tokens(crate::lang::lexer::token_views(parameters@), 0);
                    let r = seq![fixed_token(TokenType::RightParen)];
                    let b = statement_tokens(body@);
                    assert(head =~= f + n + l);
                    lemma_lexemes_row(f, n);
                    lemma_lexemes_row(f + n, l);
                    lemma_lexemes_row(head, p);
                    lemma_lexemes_row(head + p, r);
                    lemma_lexemes_row(head + p + r, b);
                    assert(self.words@ =~= start + lexemes(head + p + r + b));
                }
            },
            Statement::Return { value, .. } => {
                self.fixed("return", Ghost(TokenType::Return));
                let ghost r = seq![fixed_token(TokenType::Return)];
                match value {
                    Some(value) => {
                        self.closed(value);
                        proof {
                            let e = expression_tokens(value@);
                            lemma_lexemes_row(r, e + semicolon());
                            assert(r + e + semicolon() =~= r + (e + semicolon()));
                            assert(self.words@ =~= start + lexemes(r + e + semicolon()));
                        }
                    },
                    None => {
                        self.fixed(";", Ghost(TokenType::Semicolon));
                        proof {
                            lemma_lexemes_row(r, semicolon());
                            assert(r + Seq::<TokenView>::empty() + semicolon() =~= r + semicolon());
                            assert(self.words@ =~= start + lexemes(r + semicolon()));
                        }
                    },
                }
            },
            Statement::Break { .. } => {
                self.fixed("break", Ghost(TokenType::Break));
                self.fixed(";", Ghost(TokenType::Semicolon));
                proof {
                    lemma_lexemes_row(seq![fixed_token(TokenType::Break)], semicolon());
                    assert(self.words@ =~= start + lexemes(
                        seq![fixed_token(TokenType::Break)] + semicolon(),
                    ));
                }
            },
            Statement::Continue { .. } => {
                self.fixed("continue", Ghost(TokenType::Continue));
                self.fixed(";", Ghost(TokenType::Semicolon));
                proof {
                    lemma_lexemes_row(seq![fixed_token(TokenType::Continue)], semicolon());
                    assert(self.words@ =~= start + lexemes(
                        seq![fixed_token(TokenType::Continue)] + semicolon(),
                    ));
                }
            },
        }
    }
}

/// The canonical text of a program: the lexemes of the tokens that write
/// its statements, with one space between each two. The scanner and the
/// parser read the text back as the same program.
pub fn render(statements: &[Statement]) -> (text: String)
    ensures
        text@ == rendered(statement_views(statements@)),
{
    let mut writer = Writer::new();
    let ghost list = statement_views(statements@);
    let mut i: usize = 0;
    while i < statements.len()
        invariant
            i <= statements.len(),
            writer.wf(),
            list == statement_views(statements@),
            lexemes(statements_tokens(list, 0)) == writer.words@ + lexemes(
                statements_tokens(list, i as int),
            ),
        decreases statements.len() - i,
    {
        let ghost now = writer.words@;
        proof {
            lemma_statements_are_written(list, i as int);
            lemma_lexemes_row(statement_tokens(list[i as int]), statements_tokens(list, i + 1));
        }
        writer.statement(&statements[i]);
        proof {
            assert(writer.words@ + lexemes(statements_tokens(list, i + 1)) =~= now + lexemes(
                statements_tokens(list, i as int),
            ));
        }
        i += 1;
    }
    proof {
        lemma_statements_are_written(list, i as int);
        lemma_lexemes_one(fixed_token(TokenType::Comma));
        assert(writer.words@ =~= lexemes(statements_tokens(list, 0)));
    }
    writer.text
}

} // verus!
