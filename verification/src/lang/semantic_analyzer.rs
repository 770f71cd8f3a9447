//! The semantic checker: a walk over the syntax tree that follows the
//! scopes and finds variables that are used without being defined, used
//! before they hold a value, or declared twice in one scope.
//!
//! [`check_statements`] says what the walk finds; [`Analyzer::analyze`]
//! computes it.

use vstd::prelude::*;
use vstd::string::*;
use crate::lang::errors::{error_views, ErrorView};
use crate::lang::lexer::{token_views, Token, TokenView};
use crate::lang::parser::{
    expression_views,
    statement_views,
    Expression,
    ExpressionView,
    Statement,
    StatementView,
};
use crate::lang::text::{decimal, push_decimal};

verus! {

/// What the checker finds wrong.
#[derive(Debug)]
pub enum Error {
    /// The name is declared a second time in one scope, at the given line
    /// and column.
    VariableRedeclaration(String, u32, u32),
    /// The name is used at the given line and column, and no scope holds
    /// it.
    VariableNotFound(String, u32, u32),
    /// The name is used at the given line and column, and was declared
    /// without a value.
    UninitializedVariable(String, u32, u32),
    /// A name is declared while no scope is open.
    NoActiveScope,
}

/// The mathematical content of an [`Error`].
pub enum SemanticErrorView {
    VariableRedeclaration(Seq<char>, nat, nat),
    VariableNotFound(Seq<char>, nat, nat),
    UninitializedVariable(Seq<char>, nat, nat),
    NoActiveScope,
}

impl View for Error {
    type V = SemanticErrorView;

    open spec fn view(&self) -> SemanticErrorView {
        match self {
            Error::VariableRedeclaration(name, line, column) => {
                SemanticErrorView::VariableRedeclaration(name@, *line as nat, *column as nat)
            },
            Error::VariableNotFound(name, line, column) => SemanticErrorView::VariableNotFound(
                name@,
                *line as nat,
                *column as nat,
            ),
            Error::UninitializedVariable(name, line, column) => {
                SemanticErrorView::UninitializedVariable(name@, *line as nat, *column as nat)
            },
            Error::NoActiveScope => SemanticErrorView::NoActiveScope,
        }
    }
}

/// ` (L:C)`, the place as the messages give it.
pub open spec fn place_text(line: nat, column: nat) -> Seq<char> {
    " ("@ + decimal(line) + ":"@ + decimal(column) + ")"@
}

/// The message of an error.
pub open spec fn message_text(e: SemanticErrorView) -> Seq<char> {
    match e {
        SemanticErrorView::VariableRedeclaration(name, _, _) => "Variable '"@ + name
            + "' is already declared in this scope."@,
        SemanticErrorView::VariableNotFound(name, line, column) => "Variable '"@ + name
            + "' is not defined."@ + place_text(line, column),
        SemanticErrorView::UninitializedVariable(name, line, column) => "Variable '"@ + name
            + "' is used before being initialized."@ + place_text(line, column),
        SemanticErrorView::NoActiveScope => "No active scope."@,
    }
}

/// The diagnostic for an error: its place, where it has one, and its
/// message.
pub open spec fn diagnostic_of(e: SemanticErrorView) -> ErrorView {
    match e {
        SemanticErrorView::VariableRedeclaration(_, line, column) => ErrorView {
            line,
            column,
            message: message_text(e),
        },
        SemanticErrorView::VariableNotFound(_, line, column) => ErrorView {
            line,
            column,
            message: message_text(e),
        },
        SemanticErrorView::UninitializedVariable(_, line, column) => ErrorView {
            line,
            column,
            message: message_text(e),
        },
        SemanticErrorView::NoActiveScope => ErrorView { line: 0, column: 0, message: message_text(e) },
    }
}

/// What a scope knows of a name: the name, and whether the variable holds
/// a value.
pub struct Binding {
    pub name: Seq<char>,
    pub is_initialized: bool,
}

/// The last binding of `name` in `frame`, if there is one.
pub open spec fn frame_lookup(frame: Seq<Binding>, name: Seq<char>) -> Option<Binding>
    decreases frame.len(),
{
    if frame.len() == 0 {
        None
    } else if frame.last().name == name {
        Some(frame.last())
    } else {
        frame_lookup(frame.drop_last(), name)
    }
}

/// What `name` stands for in `scopes`: its binding in the innermost scope
/// that holds it, if any does. An inner binding hides the outer ones.
pub open spec fn lookup(scopes: Seq<Seq<Binding>>, name: Seq<char>) -> Option<Binding>
    decreases scopes.len(),
{
    if scopes.len() == 0 {
        None
    } else {
        match frame_lookup(scopes.last(), name) {
            Some(binding) => Some(binding),
            None => lookup(scopes.drop_last(), name),
        }
    }
}

/// The scopes after `name` was declared in the innermost one, at the given
/// line and column; an error where that scope holds the name already, or
/// where there is no scope.
pub open spec fn defined(
    scopes: Seq<Seq<Binding>>,
    name: Seq<char>,
    is_initialized: bool,
    line: nat,
    column: nat,
) -> Result<Seq<Seq<Binding>>, SemanticErrorView> {
    if scopes.len() == 0 {
        Err(SemanticErrorView::NoActiveScope)
    } else if frame_lookup(scopes.last(), name) is Some {
        Err(SemanticErrorView::VariableRedeclaration(name, line, column))
    } else {
        Ok(scopes.drop_last().push(scopes.last().push(Binding { name, is_initialized })))
    }
}

/// The scopes after the innermost one was closed.
pub open spec fn closed(scopes: Seq<Seq<Binding>>) -> Seq<Seq<Binding>> {
    if scopes.len() > 0 {
        scopes.drop_last()
    } else {
        scopes
    }
}

/// The use of the variable that `name` names: an error where no scope
/// holds it, or where it holds no value.
pub open spec fn resolved(scopes: Seq<Seq<Binding>>, name: TokenView) -> Result<
    (),
    SemanticErrorView,
> {
    match lookup(scopes, name.lexeme) {
        None => Err(SemanticErrorView::VariableNotFound(name.lexeme, name.line, name.column)),
        Some(binding) => if binding.is_initialized {
            Ok(())
        } else {
            Err(SemanticErrorView::UninitializedVariable(name.lexeme, name.line, name.column))
        },
    }
}

/// What the checker finds in the expression `e`: the first error in the
/// order of the walk, or none.
///
/// Operands are walked from left to right, a call's callee before its
/// arguments, the value of an assignment before its target. The target of
/// an assignment is resolved as a use is: assigning declares nothing.
pub open spec fn check_expression(e: ExpressionView, scopes: Seq<Seq<Binding>>) -> Result<
    (),
    SemanticErrorView,
>
    decreases e, 0int,
{
    match e {
        ExpressionView::Binary { left, right, .. } => match check_expression(*left, scopes) {
            Err(error) => Err(error),
            Ok(_) => check_expression(*right, scopes),
        },
        ExpressionView::Logical { left, right, .. } => match check_expression(*left, scopes) {
            Err(error) => Err(error),
            Ok(_) => check_expression(*right, scopes),
        },
        ExpressionView::Grouping(inner) => check_expression(*inner, scopes),
        ExpressionView::Literal(_) => Ok(()),
        ExpressionView::Unary { right, .. } => check_expression(*right, scopes),
        ExpressionView::Variable(name) => resolved(scopes, name),
        ExpressionView::Assign { name, value } => match check_expression(*value, scopes) {
            Err(error) => Err(error),
            Ok(_) => resolved(scopes, name),
        },
        ExpressionView::Call { callee, arguments, .. } => match check_expression(*callee, scopes) {
            Err(error) => Err(error),
            Ok(_) => check_expressions(arguments, 0, scopes),
        },
    }
}

/// What the checker finds in the expressions of `list` from index `i` on.
pub open spec fn check_expressions(
    list: Seq<ExpressionView>,
    i: int,
    scopes: Seq<Seq<Binding>>,
) -> Result<(), SemanticErrorView>
    decreases list, list.len() - i,
{
    if 0 <= i < list.len() {
        match check_expression(list[i], scopes) {
            Err(error) => Err(error),
            Ok(_) => check_expressions(list, i + 1, scopes),
        }
    } else {
        Ok(())
    }
}


/// The scopes after the parameters of `list` from index `i` on were
/// declared in the innermost one, each holding a value.
pub open spec fn define_parameters(
    list: Seq<TokenView>,
    i: int,
    scopes: Seq<Seq<Binding>>,
) -> Result<Seq<Seq<Binding>>, SemanticErrorView>
    decreases list.len() - i,
{
    if 0 <= i < list.len() {
        match defined(scopes, list[i].lexeme, true, list[i].line, list[i].column) {
            Err(error) => Err(error),
            Ok(next) => define_parameters(list, i + 1, next),
        }
    } else {
        Ok(scopes)
    }
}

/// `scopes`, where the expression `e` passes the checker, and its first
/// error otherwise.
pub open spec fn checked(e: ExpressionView, scopes: Seq<Seq<Binding>>) -> Result<
    Seq<Seq<Binding>>,
    SemanticErrorView,
> {
    match check_expression(e, scopes) {
        Err(error) => Err(error),
        Ok(_) => Ok(scopes),
    }
}

/// What the checker finds in the statement `s`: the scopes after it, or
/// its first error in the order of the walk.
///
/// - A `let` declares its name in the innermost scope before its
///   initializer is walked; the variable holds a value if there is an
///   initializer.
/// - A block opens a scope for its statements and closes it behind them.
/// - A function declares its name, as a variable without a value, in the
///   scope where it stands; it opens a scope for its parameters, which hold
///   values, walks its body in it and closes it.
/// - `if` and `while` walk the condition and the branches in order.
pub open spec fn check_statement(s: StatementView, scopes: Seq<Seq<Binding>>) -> Result<
    Seq<Seq<Binding>>,
    SemanticErrorView,
>
    decreases s, 0int,
{
    match s {
        StatementView::Expression(e) => checked(e, scopes),
        StatementView::Print(e) => checked(e, scopes),
        StatementView::Variable { name, initializer } => match defined(
            scopes,
            name.lexeme,
            initializer is Some,
            name.line,
            name.column,
        ) {
            Err(error) => Err(error),
            Ok(next) => match initializer {
                Some(e) => checked(e, next),
                None => Ok(next),
            },
        },
        StatementView::Block(statements) => match check_statements(
            statements,
            0,
            scopes.push(Seq::empty()),
        ) {
            Err(error) => Err(error),
            Ok(inner) => Ok(closed(inner)),
        },
        StatementView::If { condition, then_branch, else_branch } => match checked(
            condition,
            scopes,
        ) {
            Err(error) => Err(error),
            Ok(_) => match check_statement(*then_branch, scopes) {
                Err(error) => Err(error),
                Ok(next) => match else_branch {
                    Some(e) => check_statement(*e, next),
                    None => Ok(next),
                },
            },
        },
        StatementView::While { condition, body } => match checked(condition, scopes) {
            Err(error) => Err(error),
            Ok(_) => check_statement(*body, scopes),
        },
        StatementView::Function { name, parameters, body } => match defined(
            scopes,
            name.lexeme,
            false,
            name.line,
            name.column,
        ) {
            Err(error) => Err(error),
            Ok(next) => match define_parameters(parameters, 0, next.push(Seq::empty())) {
                Err(error) => Err(error),
                Ok(inner) => match check_statement(*body, inner) {
                    Err(error) => Err(error),
                    Ok(after) => Ok(closed(after)),
                },
            },
        },
        StatementView::Return { value, .. } => match value {
            Some(e) => checked(e, scopes),
            None => Ok(scopes),
        },
        StatementView::Break { .. } => Ok(scopes),
        StatementView::Continue { .. } => Ok(scopes),
    }
}

/// What the checker finds in the statements of `list` from index `i` on,
/// one after the other.
pub open spec fn check_statements(
    list: Seq<StatementView>,
    i: int,
    scopes: Seq<Seq<Binding>>,
) -> Result<Seq<Seq<Binding>>, SemanticErrorView>
    decreases list, list.len() - i,
{
    if 0 <= i < list.len() {
        match check_statement(list[i], scopes) {
            Err(error) => Err(error),
            Ok(next) => check_statements(list, i + 1, next),
        }
    } else {
        Ok(scopes)
    }
}

/// What the checker finds in a program: nothing, or the diagnostic for its
/// first error. The walk begins with one empty scope.
pub open spec fn check_program(statements: Seq<StatementView>) -> Result<(), Seq<ErrorView>> {
    match check_statements(statements, 0, seq![Seq::<Binding>::empty()]) {
        Ok(_) => Ok(()),
        Err(error) => Err(seq![diagnostic_of(error)]),
    }
}

// ---------------------------------------------------------------------------
// The environment
// ---------------------------------------------------------------------------

/// What a scope holds for one name.
struct VariableEntry {
    name: String,
    is_initialized: bool,
}

impl View for VariableEntry {
    type V = Binding;

    closed spec fn view(&self) -> Binding {
        Binding { name: self.name@, is_initialized: self.is_initialized }
    }
}

/// The view of a scope.
spec fn frame_view(frame: Seq<VariableEntry>) -> Seq<Binding> {
    Seq::new(frame.len(), |i: int| frame[i]@)
}

/// The view of an entry that was found or not.
spec fn entry_view(entry: Option<&VariableEntry>) -> Option<Binding> {
    match entry {
        Some(e) => Some(e@),
        None => None,
    }
}

/// Whether no name occurs twice in `frame`.
pub open spec fn distinct_names(frame: Seq<Binding>) -> bool {
    forall|i: int, j: int| 0 <= i < j < frame.len() ==> frame[i].name != frame[j].name
}

/// A scope holds a name exactly if the lookup finds it.
proof fn lemma_frame_lookup(frame: Seq<Binding>, name: Seq<char>)
    ensures
        frame_lookup(frame, name) is None <==> forall|i: int|
            0 <= i < frame.len() ==> (#[trigger] frame[i]).name != name,
        frame_lookup(frame, name) matches Some(b) ==> b.name == name,
    decreases frame.len(),
{
    if frame.len() > 0 {
        lemma_frame_lookup(frame.drop_last(), name);
        if frame.last().name != name {
            if frame_lookup(frame, name) is None {
                assert forall|i: int| 0 <= i < frame.len() implies (#[trigger] frame[i]).name
                    != name by {
                    if i < frame.len() - 1 {
                        assert(frame.drop_last()[i] == frame[i]);
                    }
                }
            } else {
                let i = choose|i: int|
                    0 <= i < frame.drop_last().len() && (#[trigger] frame.drop_last()[i]).name
                        == name;
                assert(frame[i].name == name);
            }
        }
    }
}

/// The scopes of a walk, the innermost last.
struct Environment {
    scopes: Vec<Vec<VariableEntry>>,
}

impl View for Environment {
    type V = Seq<Seq<Binding>>;

    closed spec fn view(&self) -> Seq<Seq<Binding>> {
        Seq::new(self.scopes.len() as nat, |i: int| frame_view(self.scopes[i]@))
    }
}

impl Environment {
    /// What holds of every environment: no scope holds a name twice.
    spec fn wf(&self) -> bool {
        forall|i: int| 0 <= i < self@.len() ==> distinct_names(#[trigger] self@[i])
    }

    /// An environment with one empty scope.
    fn new() -> (environment: Self)
        ensures
            environment@ == seq![Seq::<Binding>::empty()],
            environment.wf(),
    {
        let mut scopes: Vec<Vec<VariableEntry>> = Vec::new();
        scopes.push(Vec::new());
        let environment = Environment { scopes };
        assert(environment@ =~= seq![Seq::<Binding>::empty()]) by {
            assert(frame_view(environment.scopes[0]@) =~= Seq::<Binding>::empty());
        }
        environment
    }

    /// Declares `name` in the innermost scope.
    fn define(&mut self, name: String, is_initialized: bool, line: u32, column: u32) -> (r: Result<
        (),
        Error,
    >)
        requires
            old(self).wf(),
        ensures
            final(self).wf(),
            match r {
                Ok(_) => defined(old(self)@, name@, is_initialized, line as nat, column as nat)
                    == Ok::<Seq<Seq<Binding>>, SemanticErrorView>(final(self)@),
                Err(error) => defined(
                    old(self)@,
                    name@,
                    is_initialized,
                    line as nat,
                    column as nat,
                ) == Err::<Seq<Seq<Binding>>, SemanticErrorView>(error@) && final(self)@ == old(
                    self,
                )@,
            },
    {
        let count: usize = self.scopes.len();
        if count == 0 {
            return Err(Error::NoActiveScope);
        }
        let ghost before = self@;
        let ghost frame = before.last();
        let scope = &self.scopes[count - 1];
        let mut i: usize = 0;
        while i < scope.len()
            invariant
                i <= scope.len(),
                frame == frame_view(scope@),
                forall|j: int| 0 <= j < i ==> (#[trigger] frame[j]).name != name@,
                self.wf(),
                self@ == old(self)@,
                self@.len() > 0,
                frame == self@.last(),
            decreases scope.len() - i,
        {
            if scope[i].name == name {
                proof {
                    lemma_frame_lookup(frame, name@);
                    assert(frame[i as int].name == name@);
                }
                return Err(Error::VariableRedeclaration(name, line, column));
            }
            i += 1;
        }
        proof {
            lemma_frame_lookup(frame, name@);
        }
        let mut scope = self.scopes.pop().unwrap();
        let ghost binding = Binding { name: name@, is_initialized };
        scope.push(VariableEntry { name, is_initialized });
        assert(frame_view(scope@) =~= frame.push(binding));
        self.scopes.push(scope);
        assert(self@ =~= before.drop_last().push(frame.push(binding)));
        assert(distinct_names(frame.push(binding)));
        assert forall|i: int| 0 <= i < self@.len() implies distinct_names(#[trigger] self@[i]) by {
            if i < self@.len() - 1 {
                assert(self@[i] == before[i]);
            }
        }
        Ok(())
    }

    /// Opens a scope.
    fn begin_scope(&mut self)
        requires
            old(self).wf(),
        ensures
            final(self).wf(),
            final(self)@ == old(self)@.push(Seq::empty()),
    {
        let ghost before = self@;
        self.scopes.push(Vec::new());
        assert(frame_view(self.scopes[self.scopes.len() - 1]@) =~= Seq::<Binding>::empty());
        assert(self@ =~= before.push(Seq::empty()));
        assert forall|i: int| 0 <= i < self@.len() implies distinct_names(#[trigger] self@[i]) by {
            if i < self@.len() - 1 {
                assert(self@[i] == before[i]);
            }
        }
    }

    /// Closes the innermost scope, if there is one.
    fn end_scope(&mut self)
        requires
            old(self).wf(),
        ensures
            final(self).wf(),
            final(self)@ == closed(old(self)@),
    {
        let ghost before = self@;
        self.scopes.pop();
        proof {
            if before.len() > 0 {
                assert(self@ =~= before.drop_last());
            } else {
                assert(self@ =~= before);
            }
        }
        assert forall|i: int| 0 <= i < self@.len() implies distinct_names(#[trigger] self@[i]) by {
            assert(self@[i] == before[i]);
        }
    }

    /// The entry for `name`: that of the innermost scope that holds it.
    fn get(&self, name: &String) -> (entry: Option<&VariableEntry>)
        ensures
            entry_view(entry) == lookup(self@, name@),
    {
        let mut i: usize = self.scopes.len();
        assert(self@.take(i as int) =~= self@);
        while i > 0
            invariant
                i <= self.scopes.len(),
                lookup(self@, name@) == lookup(self@.take(i as int), name@),
            decreases i,
        {
            i -= 1;
            let scope = &self.scopes[i];
            let ghost frame = frame_view(scope@);
            assert(self@.take(i + 1).last() == frame);
            assert(self@.take(i + 1).drop_last() =~= self@.take(i as int));
            let mut j: usize = scope.len();
            assert(frame.take(j as int) =~= frame);
            while j > 0
                invariant
                    j <= scope.len(),
                    frame == frame_view(scope@),
                    frame_lookup(frame, name@) == frame_lookup(frame.take(j as int), name@),
                    i < self.scopes.len(),
                    lookup(self@, name@) == lookup(self@.take(i + 1), name@),
                    self@.take(i + 1).last() == frame,
                decreases j,
            {
                j -= 1;
                assert(frame.take(j + 1).last() == frame[j as int]);
                assert(frame.take(j + 1).drop_last() =~= frame.take(j as int));
                if scope[j].name == *name {
                    return Some(&scope[j]);
                }
            }
        }
        None
    }
}


impl Error {
    /// The message of the error.
    pub fn to_string(&self) -> (text: String)
        ensures
            text@ == message_text(self@),
    {
        match self {
            Error::VariableRedeclaration(name, _, _) => {
                let mut text = String::from_str("Variable '");
                text.append(name.as_str());
                text.append("' is already declared in this scope.");
                text
            },
            Error::VariableNotFound(name, line, column) => {
                let mut text = String::from_str("Variable '");
                text.append(name.as_str());
                text.append("' is not defined.");
                push_place(&mut text, *line, *column);
                text
            },
            Error::UninitializedVariable(name, line, column) => {
                let mut text = String::from_str("Variable '");
                text.append(name.as_str());
                text.append("' is used before being initialized.");
                push_place(&mut text, *line, *column);
                text
            },
            Error::NoActiveScope => String::from_str("No active scope."),
        }
    }

    /// The diagnostic for the error.
    pub fn to_diagnostic(&self) -> (diagnostic: crate::lang::errors::Error)
        ensures
            diagnostic@ == diagnostic_of(self@),
    {
        let message = self.to_string();
        match self {
            Error::VariableRedeclaration(_, line, column) => crate::lang::errors::Error {
                line: *line as usize,
                column: *column as usize,
                message,
            },
            Error::VariableNotFound(_, line, column) => crate::lang::errors::Error {
                line: *line as usize,
                column: *column as usize,
                message,
            },
            Error::UninitializedVariable(_, line, column) => crate::lang::errors::Error {
                line: *line as usize,
                column: *column as usize,
                message,
            },
            Error::NoActiveScope => crate::lang::errors::Error { line: 0, column: 0, message },
        }
    }
}

/// Appends ` (L:C)` to `text`.
fn push_place(text: &mut String, line: u32, column: u32)
    ensures
        final(text)@ == old(text)@ + place_text(line as nat, column as nat),
{
    let ghost before = text@;
    text.append(" (");
    push_decimal(text, line as u128);
    text.append(":");
    push_decimal(text, column as u128);
    text.append(")");
    assert(text@ =~= before + place_text(line as nat, column as nat));
}

/// The view of what the walk over an expression returns.
pub open spec fn walk_view(result: Result<(), Error>) -> Result<(), SemanticErrorView> {
    match result {
        Ok(_) => Ok(()),
        Err(error) => Err(error@),
    }
}

/// The view of what [`Analyzer::analyze`] returns.
pub open spec fn analysis_view(result: Result<(), Vec<crate::lang::errors::Error>>) -> Result<
    (),
    Seq<ErrorView>,
> {
    match result {
        Ok(_) => Ok(()),
        Err(errors) => Err(error_views(errors@)),
    }
}

/// The semantic checker.
pub struct Analyzer {}

impl Analyzer {
    /// Checks a program: `Ok` where every variable is declared once in its
    /// scope, and is defined and holds a value wherever it is used;
    /// otherwise the diagnostic for the first error that the walk meets.
    pub fn analyze(statements: &[Statement]) -> (r: Result<(), Vec<crate::lang::errors::Error>>)
        ensures
            analysis_view(r) == check_program(statement_views(statements@)),
    {
        let mut environment = Environment::new();
        let ghost list = statement_views(statements@);
        let mut i: usize = 0;
        while i < statements.len()
            invariant
                i <= statements.len(),
                environment.wf(),
                list == statement_views(statements@),
                check_statements(list, 0, seq![Seq::<Binding>::empty()]) == check_statements(
                    list,
                    i as int,
                    environment@,
                ),
            decreases statements.len() - i,
        {
            if let Err(error) = Self::analyze_statement(&statements[i], &mut environment) {
                let mut errors: Vec<crate::lang::errors::Error> = Vec::new();
                errors.push(error.to_diagnostic());
                assert(error_views(errors@) =~= seq![diagnostic_of(error@)]);
                return Err(errors);
            }
            i += 1;
        }
        Ok(())
    }

    /// Walks one statement.
    fn analyze_statement(statement: &Statement, environment: &mut Environment) -> (r: Result<
        (),
        Error,
    >)
        requires
            old(environment).wf(),
        ensures
            final(environment).wf(),
            match r {
                Ok(_) => check_statement(statement@, old(environment)@) == Ok::<
                    Seq<Seq<Binding>>,
                    SemanticErrorView,
                >(final(environment)@),
                Err(error) => check_statement(statement@, old(environment)@) == Err::<
                    Seq<Seq<Binding>>,
                    SemanticErrorView,
                >(error@),
            },
        decreases statement,
    {
        match statement {
            Statement::Expression(expression) => Self::analyze_expression(expression, environment),
            Statement::Print(expression) => Self::analyze_expression(expression, environment),
            Statement::Variable { name, initializer } => {
                if let Err(error) = environment.define(
                    name.lexeme.clone(),
                    initializer.is_some(),
                    name.line,
                    name.column,
                ) {
                    return Err(error);
                }
                if let Some(initializer) = initializer {
                    Self::analyze_expression(initializer, environment)
                } else {
                    Ok(())
                }
            },
            Statement::Block(statements) => {
                environment.begin_scope();
                let ghost list = statement@->Block_0;
                let ghost start = environment@;
                assert(list =~= statement_views(statements@));
                let mut i: usize = 0;
                while i < statements.len()
                    invariant
                        i <= statements.len(),
                        environment.wf(),
                        list == statement_views(statements@),
                        check_statements(list, 0, start) == check_statements(
                            list,
                            i as int,
                            environment@,
                        ),
                        statement == Statement::Block(*statements),
                        statement@ == StatementView::Block(list),
                        start == old(environment)@.push(Seq::empty()),
                    decreases statements.len() - i,
                {
                    if let Err(error) = Self::analyze_statement(&statements[i], environment) {
                        return Err(error);
                    }
                    i += 1;
                }
                environment.end_scope();
                Ok(())
            },
            Statement::If { condition, then_branch, else_branch } => {
                if let Err(error) = Self::analyze_expression(condition, environment) {
                    return Err(error);
                }
                if let Err(error) = Self::analyze_statement(then_branch, environment) {
                    return Err(error);
                }
                if let Some(else_branch) = else_branch {
                    Self::analyze_statement(else_branch, environment)
                } else {
                    Ok(())
                }
            },
            Statement::While { condition, body } => {
                if let Err(error) = Self::analyze_expression(condition, environment) {
                    return Err(error);
                }
                Self::analyze_statement(body, environment)
            },
            Statement::Function { name, parameters, body } => {
                if let Err(error) = environment.define(
                    name.lexeme.clone(),
                    false,
                    name.line,
                    name.column,
                ) {
                    return Err(error);
                }
                environment.begin_scope();
                let ghost list = token_views(parameters@);
                let ghost start = environment@;
                let mut i: usize = 0;
                while i < parameters.len()
                    invariant
                        i <= parameters.len(),
                        environment.wf(),
                        list == token_views(parameters@),
                        define_parameters(list, 0, start) == define_parameters(
                            list,
                            i as int,
                            environment@,
                        ),
                        statement@ matches StatementView::Function { name: n, parameters: p, body: b }
                            && p == list && n == name@ && *b == body@,
                        defined(
                            old(environment)@,
                            name@.lexeme,
                            false,
                            name@.line,
                            name@.column,
                        ) matches Ok(next) && start == next.push(Seq::empty()),
                    decreases parameters.len() - i,
                {
                    let parameter = &parameters[i];
                    if let Err(error) = environment.define(
                        parameter.lexeme.clone(),
                        true,
                        parameter.line,
                        parameter.column,
                    ) {
                        return Err(error);
                    }
                    i += 1;
                }
                if let Err(error) = Self::analyze_statement(body, environment) {
                    return Err(error);
                }
                environment.end_scope();
                Ok(())
            },
            Statement::Return { value, .. } => {
                if let Some(value) = value {
                    Self::analyze_expression(value, environment)
                } else {
                    Ok(())
                }
            },
            Statement::Break { .. } => Ok(()),
            Statement::Continue { .. } => Ok(()),
        }
    }

    /// Walks one expression.
    fn analyze_expression(expression: &Expression, environment: &Environment) -> (r: Result<
        (),
        Error,
    >)
        ensures
            walk_view(r) == check_expression(expression@, environment@),
        decreases expression,
    {
        match expression {
            Expression::Binary { left, right, .. } => {
                if let Err(error) = Self::analyze_expression(left, environment) {
                    return Err(error);
                }
                Self::analyze_expression(right, environment)
            },
            Expression::Logical { left, right, .. } => {
                if let Err(error) = Self::analyze_expression(left, environment) {
                    return Err(error);
                }
                Self::analyze_expression(right, environment)
            },
            Expression::Grouping(inner) => Self::analyze_expression(inner, environment),
            Expression::Literal(_) => Ok(()),
            Expression::Unary { right, .. } => Self::analyze_expression(right, environment),
            Expression::Variable(name) => Self::resolve(name, environment),
            Expression::Assign { name, value } => {
                if let Err(error) = Self::analyze_expression(value, environment) {
                    return Err(error);
                }
                Self::resolve(name, environment)
            },
            Expression::Call { callee, arguments, .. } => {
                if let Err(error) = Self::analyze_expression(callee, environment) {
                    return Err(error);
                }
                let ghost list = expression@->Call_arguments;
                assert(list =~= expression_views(arguments@));
                let mut i: usize = 0;
                while i < arguments.len()
                    invariant
                        i <= arguments.len(),
                        list == expression_views(arguments@),
                        check_expressions(list, 0, environment@) == check_expressions(
                            list,
                            i as int,
                            environment@,
                        ),
                        expression@ matches ExpressionView::Call { callee: c, arguments: a, .. }
                            && a == list && *c == callee@,
                        check_expression(callee@, environment@) is Ok,
                        expression matches Expression::Call { arguments: a, .. } && a == arguments,
                    decreases arguments.len() - i,
                {
                    if let Err(error) = Self::analyze_expression(&arguments[i], environment) {
                        return Err(error);
                    }
                    i += 1;
                }
                Ok(())
            },
        }
    }

    /// The use of the variable that `name` names.
    fn resolve(name: &Token, environment: &Environment) -> (r: Result<(), Error>)
        ensures
            walk_view(r) == resolved(environment@, name@),
    {
        match environment.get(&name.lexeme) {
            Some(entry) => {
                if !entry.is_initialized {
                    Err(Error::UninitializedVariable(name.lexeme.clone(), name.line, name.column))
                } else {
                    Ok(())
                }
            },
            None => Err(Error::VariableNotFound(name.lexeme.clone(), name.line, name.column)),
        }
    }
}


// ---------------------------------------------------------------------------
// What holds of every walk
// ---------------------------------------------------------------------------

/// Whether `next` is `scopes` with more names in its innermost scope: the
/// scopes are as many, the outer ones are the same, and the innermost one
/// begins with what it held.
pub open spec fn grown(scopes: Seq<Seq<Binding>>, next: Seq<Seq<Binding>>) -> bool {
    &&& next.len() == scopes.len()
    &&& scopes.len() > 0 ==> {
        &&& next.drop_last() == scopes.drop_last()
        &&& next.last().len() >= scopes.last().len()
        &&& next.last().subrange(0, scopes.last().len() as int) == scopes.last()
    }
}

/// Scopes that grow twice have grown.
proof fn lemma_grown_twice(a: Seq<Seq<Binding>>, b: Seq<Seq<Binding>>, c: Seq<Seq<Binding>>)
    requires
        grown(a, b),
        grown(b, c),
    ensures
        grown(a, c),
{
    if a.len() > 0 {
        assert(c.last().subrange(0, a.last().len() as int) =~= c.last().subrange(
            0,
            b.last().len() as int,
        ).subrange(0, a.last().len() as int));
    }
}

/// Scopes that are opened, grow and are closed are as they were.
proof fn lemma_closed_again(scopes: Seq<Seq<Binding>>, inner: Seq<Seq<Binding>>)
    requires
        grown(scopes.push(Seq::empty()), inner),
    ensures
        closed(inner) == scopes,
{
    assert(scopes.push(Seq::<Binding>::empty()).drop_last() =~= scopes);
}

/// Declaring a name adds it to the innermost scope and leaves every other
/// scope as it is; and where no name occurs twice in a scope, none does
/// afterwards.
pub proof fn law_declaring_grows_the_innermost_scope(
    scopes: Seq<Seq<Binding>>,
    name: Seq<char>,
    is_initialized: bool,
    line: nat,
    column: nat,
)
    requires
        defined(scopes, name, is_initialized, line, column) is Ok,
    ensures
        grown(scopes, defined(scopes, name, is_initialized, line, column)->Ok_0),
        frame_lookup(
            defined(scopes, name, is_initialized, line, column)->Ok_0.last(),
            name,
        ) == Some(Binding { name, is_initialized }),
        distinct_names(scopes.last()) ==> distinct_names(
            defined(scopes, name, is_initialized, line, column)->Ok_0.last(),
        ),
{
    let next = defined(scopes, name, is_initialized, line, column)->Ok_0;
    let frame = scopes.last();
    let binding = Binding { name, is_initialized };
    assert(next.drop_last() =~= scopes.drop_last());
    assert(next.last() == frame.push(binding));
    assert(frame.push(binding).subrange(0, frame.len() as int) =~= frame);
    assert(frame.push(binding).drop_last() =~= frame);
    lemma_frame_lookup(frame, name);
}

/// Declaring parameters grows the innermost scope.
proof fn lemma_parameters_grow(list: Seq<TokenView>, i: int, scopes: Seq<Seq<Binding>>)
    requires
        define_parameters(list, i, scopes) is Ok,
    ensures
        grown(scopes, define_parameters(list, i, scopes)->Ok_0),
    decreases list.len() - i,
{
    if 0 <= i < list.len() {
        let next = defined(scopes, list[i].lexeme, true, list[i].line, list[i].column)->Ok_0;
        law_declaring_grows_the_innermost_scope(
            scopes,
            list[i].lexeme,
            true,
            list[i].line,
            list[i].column,
        );
        lemma_parameters_grow(list, i + 1, next);
        lemma_grown_twice(scopes, next, define_parameters(list, i, scopes)->Ok_0);
    } else {
        assert(scopes.last().subrange(0, scopes.last().len() as int) =~= scopes.last());
    }
}

/// Scopes are strictly nested: a statement that passes the checker leaves
/// as many scopes as it found, the outer ones unchanged, and the innermost
/// one with the names it had and those that the statement declared in it.
pub proof fn law_statement_keeps_scopes_nested(s: StatementView, scopes: Seq<Seq<Binding>>)
    requires
        check_statement(s, scopes) is Ok,
    ensures
        grown(scopes, check_statement(s, scopes)->Ok_0),
    decreases s, 0int,
{
    let same = scopes.len() > 0 ==> scopes.last().subrange(0, scopes.last().len() as int)
        =~= scopes.last();
    assert(same);
    match s {
        StatementView::Variable { name, initializer } => {
            law_declaring_grows_the_innermost_scope(
                scopes,
                name.lexeme,
                initializer is Some,
                name.line,
                name.column,
            );
        },
        StatementView::Block(statements) => {
            let opened = scopes.push(Seq::empty());
            lemma_statements_keep_scopes_nested(statements, 0, opened);
            lemma_closed_again(scopes, check_statements(statements, 0, opened)->Ok_0);
        },
        StatementView::If { condition, then_branch, else_branch } => {
            law_statement_keeps_scopes_nested(*then_branch, scopes);
            let next = check_statement(*then_branch, scopes)->Ok_0;
            if else_branch is Some {
                law_statement_keeps_scopes_nested(*else_branch->0, next);
                lemma_grown_twice(scopes, next, check_statement(*else_branch->0, next)->Ok_0);
            }
        },
        StatementView::While { condition, body } => {
            law_statement_keeps_scopes_nested(*body, scopes);
        },
        StatementView::Function { name, parameters, body } => {
            let next = defined(scopes, name.lexeme, false, name.line, name.column)->Ok_0;
            law_declaring_grows_the_innermost_scope(
                scopes,
                name.lexeme,
                false,
                name.line,
                name.column,
            );
            let opened = next.push(Seq::empty());
            lemma_parameters_grow(parameters, 0, opened);
            let inner = define_parameters(parameters, 0, opened)->Ok_0;
            law_statement_keeps_scopes_nested(*body, inner);
            let after = check_statement(*body, inner)->Ok_0;
            lemma_grown_twice(opened, inner, after);
            lemma_closed_again(next, after);
        },
        _ => {},
    }
}

/// [`law_statement_keeps_scopes_nested`], of the statements of a list.
proof fn lemma_statements_keep_scopes_nested(
    list: Seq<StatementView>,
    i: int,
    scopes: Seq<Seq<Binding>>,
)
    requires
        check_statements(list, i, scopes) is Ok,
    ensures
        grown(scopes, check_statements(list, i, scopes)->Ok_0),
    decreases list, list.len() - i,
{
    if 0 <= i < list.len() {
        law_statement_keeps_scopes_nested(list[i], scopes);
        let next = check_statement(list[i], scopes)->Ok_0;
        lemma_statements_keep_scopes_nested(list, i + 1, next);
        lemma_grown_twice(scopes, next, check_statements(list, i, scopes)->Ok_0);
    } else if scopes.len() > 0 {
        assert(scopes.last().subrange(0, scopes.last().len() as int) =~= scopes.last());
    }
}

/// A block declares nothing outside itself: the scopes behind a block that
/// passes the checker are the scopes before it.
pub proof fn law_block_leaves_scopes_as_they_were(
    statements: Seq<StatementView>,
    scopes: Seq<Seq<Binding>>,
)
    requires
        check_statement(StatementView::Block(statements), scopes) is Ok,
    ensures
        check_statement(StatementView::Block(statements), scopes)->Ok_0 == scopes,
{
    let opened = scopes.push(Seq::empty());
    lemma_statements_keep_scopes_nested(statements, 0, opened);
    lemma_closed_again(scopes, check_statements(statements, 0, opened)->Ok_0);
}

/// A name that an inner scope declares hides the same name of every outer
/// scope: the lookup finds the inner binding.
pub proof fn law_inner_binding_shadows(
    scopes: Seq<Seq<Binding>>,
    name: Seq<char>,
    is_initialized: bool,
    line: nat,
    column: nat,
)
    requires
        defined(scopes, name, is_initialized, line, column) is Ok,
    ensures
        lookup(defined(scopes, name, is_initialized, line, column)->Ok_0, name) == Some(
            Binding { name, is_initialized },
        ),
{
    law_declaring_grows_the_innermost_scope(scopes, name, is_initialized, line, column);
}

} // verus!
