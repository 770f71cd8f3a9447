//! The scanner: source text to tokens.
//!
//! [`scan`] says, as a function on `Seq<char>`, which tokens a text holds;
//! [`tokenize`] computes them.

use vstd::prelude::*;
use vstd::string::*;
use crate::lang::text::{
    spells,
    substring,
    to_chars,
    unicode_alphabetic,
    unicode_alphanumeric,
};

verus! {

/// The category of a token.
#[derive(Debug, PartialEq, Eq, Clone, Copy, Structural)]
pub enum TokenType {
    // Single-character tokens.
    LeftParen,
    RightParen,
    LeftBrace,
    RightBrace,
    Comma,
    Dot,
    Minus,
    Plus,
    Semicolon,
    Slash,
    Star,
    // One or two character tokens.
    Bang,
    BangEqual,
    Equal,
    EqualEqual,
    Greater,
    GreaterEqual,
    Less,
    LessEqual,
    // Literals.
    Identifier,
    String,
    Number,
    // Keywords.
    And,
    Class,
    Else,
    False,
    Function,
    For,
    If,
    Nil,
    Or,
    Print,
    Return,
    Super,
    This,
    True,
    Variable,
    While,
    Break,
    Continue,
    // End of input.
    Eof,
}

/// A literal value.
///
/// A number is held as its decimal numeral, exactly as written: a digit
/// sequence with at most one decimal point. Turning the numeral into a
/// binary floating-point value is left to whoever evaluates the program.
#[derive(Debug)]
pub enum Literal {
    String(String),
    Number(String),
    Boolean(bool),
    Nil,
}

/// The mathematical content of a [`Literal`].
pub enum LiteralView {
    String(Seq<char>),
    Number(Seq<char>),
    Boolean(bool),
    Nil,
}

impl View for Literal {
    type V = LiteralView;

    open spec fn view(&self) -> LiteralView {
        match self {
            Literal::String(s) => LiteralView::String(s@),
            Literal::Number(s) => LiteralView::Number(s@),
            Literal::Boolean(b) => LiteralView::Boolean(*b),
            Literal::Nil => LiteralView::Nil,
        }
    }
}

impl Clone for Literal {
    fn clone(&self) -> (r: Self)
        ensures
            r@ == self@,
    {
        match self {
            Literal::String(s) => Literal::String(s.clone()),
            Literal::Number(s) => Literal::Number(s.clone()),
            Literal::Boolean(b) => Literal::Boolean(*b),
            Literal::Nil => Literal::Nil,
        }
    }
}

/// A token: its category, the exact source text it was scanned from, the
/// value it denotes if it is a string or a number, and the line and column
/// of its first character (both counted from 1).
#[derive(Debug)]
pub struct Token {
    pub token_type: TokenType,
    pub lexeme: String,
    pub literal: Option<Literal>,
    pub line: u32,
    pub column: u32,
}

/// The mathematical content of a [`Token`].
pub struct TokenView {
    pub token_type: TokenType,
    pub lexeme: Seq<char>,
    pub literal: Option<LiteralView>,
    pub line: nat,
    pub column: nat,
}

/// The view of an optional literal.
pub open spec fn literal_view(literal: Option<Literal>) -> Option<LiteralView> {
    match literal {
        Some(l) => Some(l@),
        None => None,
    }
}

impl View for Token {
    type V = TokenView;

    open spec fn view(&self) -> TokenView {
        TokenView {
            token_type: self.token_type,
            lexeme: self.lexeme@,
            literal: literal_view(self.literal),
            line: self.line as nat,
            column: self.column as nat,
        }
    }
}

impl Clone for Token {
    fn clone(&self) -> (r: Self)
        ensures
            r@ == self@,
    {
        let literal = match &self.literal {
            Some(l) => Some(l.clone()),
            None => None,
        };
        Token {
            token_type: self.token_type,
            lexeme: self.lexeme.clone(),
            literal,
            line: self.line,
            column: self.column,
        }
    }
}

/// The views of a list of tokens, in order.
pub open spec fn token_views(tokens: Seq<Token>) -> Seq<TokenView> {
    Seq::new(tokens.len(), |i: int| tokens[i]@)
}

// ---------------------------------------------------------------------------
// Character classes
// ---------------------------------------------------------------------------

/// `a`..`z` and `A`..`Z`.
pub open spec fn is_ascii_letter(c: char) -> bool {
    ('a' <= c && c <= 'z') || ('A' <= c && c <= 'Z')
}

/// `0`..`9`.
pub open spec fn is_digit(c: char) -> bool {
    '0' <= c && c <= '9'
}

/// What may begin an identifier: a letter or `_`. Within ASCII the letters
/// are `a`..`z` and `A`..`Z`; beyond it, Unicode's alphabetic characters.
pub open spec fn is_identifier_start(c: char) -> bool {
    is_ascii_letter(c) || c == '_' || (c as u32 > 0x7f && unicode_alphabetic(c))
}

/// What may continue an identifier: a letter, a digit or `_`. Beyond ASCII,
/// Unicode's alphabetic and numeric characters.
pub open spec fn is_identifier_part(c: char) -> bool {
    is_ascii_letter(c) || is_digit(c) || c == '_' || (c as u32 > 0x7f && unicode_alphanumeric(
        c,
    ))
}

/// The kind of a punctuation mark that is a token by itself.
pub open spec fn punctuation(c: char) -> Option<TokenType> {
    if c == '(' {
        Some(TokenType::LeftParen)
    } else if c == ')' {
        Some(TokenType::RightParen)
    } else if c == '{' {
        Some(TokenType::LeftBrace)
    } else if c == '}' {
        Some(TokenType::RightBrace)
    } else if c == ',' {
        Some(TokenType::Comma)
    } else if c == '.' {
        Some(TokenType::Dot)
    } else if c == '-' {
        Some(TokenType::Minus)
    } else if c == '+' {
        Some(TokenType::Plus)
    } else if c == ';' {
        Some(TokenType::Semicolon)
    } else if c == '/' {
        Some(TokenType::Slash)
    } else if c == '*' {
        Some(TokenType::Star)
    } else {
        None
    }
}

/// The kind of an operator that may be followed by `=`: the bare kind, or
/// the two-character kind where `followed` says that a `=` comes next.
pub open spec fn operator(c: char, followed: bool) -> Option<TokenType> {
    if c == '!' {
        Some(if followed { TokenType::BangEqual } else { TokenType::Bang })
    } else if c == '=' {
        Some(if followed { TokenType::EqualEqual } else { TokenType::Equal })
    } else if c == '>' {
        Some(if followed { TokenType::GreaterEqual } else { TokenType::Greater })
    } else if c == '<' {
        Some(if followed { TokenType::LessEqual } else { TokenType::Less })
    } else {
        None
    }
}

/// The keyword that `word` spells, if any.
pub open spec fn keyword(word: Seq<char>) -> Option<TokenType> {
    if word == "and"@ {
        Some(TokenType::And)
    } else if word == "class"@ {
        Some(TokenType::Class)
    } else if word == "else"@ {
        Some(TokenType::Else)
    } else if word == "false"@ {
        Some(TokenType::False)
    } else if word == "fn"@ {
        Some(TokenType::Function)
    } else if word == "for"@ {
        Some(TokenType::For)
    } else if word == "if"@ {
        Some(TokenType::If)
    } else if word == "nil"@ {
        Some(TokenType::Nil)
    } else if word == "or"@ {
        Some(TokenType::Or)
    } else if word == "print"@ {
        Some(TokenType::Print)
    } else if word == "return"@ {
        Some(TokenType::Return)
    } else if word == "super"@ {
        Some(TokenType::Super)
    } else if word == "this"@ {
        Some(TokenType::This)
    } else if word == "true"@ {
        Some(TokenType::True)
    } else if word == "let"@ {
        Some(TokenType::Variable)
    } else if word == "while"@ {
        Some(TokenType::While)
    } else if word == "break"@ {
        Some(TokenType::Break)
    } else if word == "continue"@ {
        Some(TokenType::Continue)
    } else {
        None
    }
}

/// The kind of a word: its keyword, or `Identifier`.
pub open spec fn word_kind(word: Seq<char>) -> TokenType {
    match keyword(word) {
        Some(kind) => kind,
        None => TokenType::Identifier,
    }
}

// ---------------------------------------------------------------------------
// Where a lexeme ends
// ---------------------------------------------------------------------------

/// The first index from `i` on that holds no identifier character, or the
/// length of `s`.
pub open spec fn identifier_end(s: Seq<char>, i: int) -> int
    decreases s.len() - i,
{
    if 0 <= i < s.len() && is_identifier_part(s[i]) {
        identifier_end(s, i + 1)
    } else {
        i
    }
}

/// The first index from `i` on that holds no digit, or the length of `s`.
pub open spec fn digits_end(s: Seq<char>, i: int) -> int
    decreases s.len() - i,
{
    if 0 <= i < s.len() && is_digit(s[i]) {
        digits_end(s, i + 1)
    } else {
        i
    }
}

/// The first index from `i` on that holds a `"`, or the length of `s`.
pub open spec fn quote_index(s: Seq<char>, i: int) -> int
    decreases s.len() - i,
{
    if 0 <= i < s.len() && s[i] != '"' {
        quote_index(s, i + 1)
    } else {
        i
    }
}

/// Where the number that begins at `i` ends: after its digits, one decimal
/// point if there is one, and the digits that follow it.
pub open spec fn number_end(s: Seq<char>, i: int) -> int {
    let j = digits_end(s, i);
    if 0 <= j < s.len() && s[j] == '.' {
        digits_end(s, j + 1)
    } else {
        j
    }
}

/// What begins at an index of the text: a token of some kind, or text that
/// the scanner skips (`kind` is `None`), and the index where it ends.
pub struct Lexeme {
    pub kind: Option<TokenType>,
    pub end: int,
}

/// What begins at index `i` of `s`.
///
/// Skipped, one character at a time: spaces, tabs, carriage returns,
/// newlines and every character that begins no token. Skipped as a whole:
/// a string that the text does not close.
pub open spec fn lexeme_at(s: Seq<char>, i: int) -> Lexeme
    recommends
        0 <= i < s.len(),
{
    let c = s[i];
    if punctuation(c) is Some {
        Lexeme { kind: punctuation(c), end: i + 1 }
    } else if operator(c, false) is Some {
        let followed = i + 1 < s.len() && s[i + 1] == '=';
        Lexeme { kind: operator(c, followed), end: if followed { i + 2 } else { i + 1 } }
    } else if c == '"' {
        let j = quote_index(s, i + 1);
        if j < s.len() {
            Lexeme { kind: Some(TokenType::String), end: j + 1 }
        } else {
            Lexeme { kind: None, end: s.len() as int }
        }
    } else if is_identifier_start(c) {
        let j = identifier_end(s, i + 1);
        Lexeme { kind: Some(word_kind(s.subrange(i, j))), end: j }
    } else if is_digit(c) {
        Lexeme { kind: Some(TokenType::Number), end: number_end(s, i) }
    } else {
        Lexeme { kind: None, end: i + 1 }
    }
}

// ---------------------------------------------------------------------------
// Positions
// ---------------------------------------------------------------------------

/// The line of index `i`: one more than the number of newlines before it.
pub open spec fn line_at(s: Seq<char>, i: int) -> nat
    decreases i,
{
    if i <= 0 {
        1
    } else if s[i - 1] == '\n' {
        line_at(s, i - 1) + 1
    } else {
        line_at(s, i - 1)
    }
}

/// The column of index `i`: one more than the number of characters between
/// the last newline before it, or the start of the text, and it.
pub open spec fn column_at(s: Seq<char>, i: int) -> nat
    decreases i,
{
    if i <= 0 {
        1
    } else if s[i - 1] == '\n' {
        1
    } else {
        column_at(s, i - 1) + 1
    }
}

// ---------------------------------------------------------------------------
// Tokens
// ---------------------------------------------------------------------------

/// The value that a lexeme of the given kind denotes: for a string what
/// stands between its quotes, for a number its numeral.
pub open spec fn literal_of(kind: TokenType, lexeme: Seq<char>) -> Option<LiteralView> {
    if kind == TokenType::String {
        Some(LiteralView::String(lexeme.subrange(1, lexeme.len() - 1)))
    } else if kind == TokenType::Number {
        Some(LiteralView::Number(lexeme))
    } else {
        None
    }
}

/// The token of kind `kind` that spans `s[i..end]`.
pub open spec fn token_at(s: Seq<char>, i: int, kind: TokenType, end: int) -> TokenView {
    TokenView {
        token_type: kind,
        lexeme: s.subrange(i, end),
        literal: literal_of(kind, s.subrange(i, end)),
        line: line_at(s, i),
        column: column_at(s, i),
    }
}

/// The token that ends every scan: it holds no text and stands where the
/// text ends.
pub open spec fn end_token(s: Seq<char>) -> TokenView {
    TokenView {
        token_type: TokenType::Eof,
        lexeme: Seq::empty(),
        literal: None,
        line: line_at(s, s.len() as int),
        column: column_at(s, s.len() as int),
    }
}

/// Every lexeme reaches beyond the index where it begins, and not beyond
/// the text.
pub proof fn lemma_lexeme_advances(s: Seq<char>, i: int)
    requires
        0 <= i < s.len(),
    ensures
        i < lexeme_at(s, i).end <= s.len(),
{
    lemma_identifier_end_bounds(s, i + 1);
    lemma_quote_index_bounds(s, i + 1);
    lemma_digits_end_bounds(s, i);
    let j = digits_end(s, i);
    if j < s.len() {
        lemma_digits_end_bounds(s, j + 1);
    }
    if is_digit(s[i]) {
        assert(digits_end(s, i) == digits_end(s, i + 1));
        lemma_digits_end_bounds(s, i + 1);
    }
}

pub proof fn lemma_identifier_end_bounds(s: Seq<char>, i: int)
    requires
        0 <= i <= s.len(),
    ensures
        i <= identifier_end(s, i) <= s.len(),
    decreases s.len() - i,
{
    if i < s.len() && is_identifier_part(s[i]) {
        lemma_identifier_end_bounds(s, i + 1);
    }
}

pub proof fn lemma_digits_end_bounds(s: Seq<char>, i: int)
    requires
        0 <= i <= s.len(),
    ensures
        i <= digits_end(s, i) <= s.len(),
    decreases s.len() - i,
{
    if i < s.len() && is_digit(s[i]) {
        lemma_digits_end_bounds(s, i + 1);
    }
}

pub proof fn lemma_quote_index_bounds(s: Seq<char>, i: int)
    requires
        0 <= i <= s.len(),
    ensures
        i <= quote_index(s, i) <= s.len(),
    decreases s.len() - i,
{
    if i < s.len() && s[i] != '"' {
        lemma_quote_index_bounds(s, i + 1);
    }
}

/// The tokens of `s` from index `i` on, the end token last.
pub open spec fn scan_from(s: Seq<char>, i: int) -> Seq<TokenView>
    decreases s.len() - i,
{
    if 0 <= i < s.len() {
        let lexeme = lexeme_at(s, i);
        proof {
            lemma_lexeme_advances(s, i);
        }
        match lexeme.kind {
            Some(kind) => seq![token_at(s, i, kind, lexeme.end)] + scan_from(s, lexeme.end),
            None => scan_from(s, lexeme.end),
        }
    } else {
        seq![end_token(s)]
    }
}

/// The tokens of the text `s`: every token in the order of the text, and
/// the end token last.
pub open spec fn scan(s: Seq<char>) -> Seq<TokenView> {
    scan_from(s, 0)
}


// ---------------------------------------------------------------------------
// Positions that fit the token's fields
// ---------------------------------------------------------------------------

/// A line or column as a token holds it: the number itself, or `u32::MAX`
/// where the number is greater.
pub open spec fn saturate(n: nat) -> nat {
    if n > u32::MAX {
        u32::MAX as nat
    } else {
        n
    }
}

/// The token `t` with its line and column as a token holds them.
pub open spec fn bounded(t: TokenView) -> TokenView {
    TokenView {
        token_type: t.token_type,
        lexeme: t.lexeme,
        literal: t.literal,
        line: saturate(t.line),
        column: saturate(t.column),
    }
}

/// The tokens `ts`, each with its line and column as a token holds them.
pub open spec fn bounded_all(ts: Seq<TokenView>) -> Seq<TokenView> {
    Seq::new(ts.len(), |i: int| bounded(ts[i]))
}

/// A token stream that a parser can read: it is not empty and its last
/// token is the end token.
pub open spec fn terminated(ts: Seq<TokenView>) -> bool {
    ts.len() > 0 && ts[ts.len() - 1].token_type == TokenType::Eof
}

// ---------------------------------------------------------------------------
// The scanner
// ---------------------------------------------------------------------------

fn is_ascii_letter_char(c: char) -> (b: bool)
    ensures
        b == is_ascii_letter(c),
{
    (c >= 'a' && c <= 'z') || (c >= 'A' && c <= 'Z')
}

fn is_digit_char(c: char) -> (b: bool)
    ensures
        b == is_digit(c),
{
    c >= '0' && c <= '9'
}

fn starts_identifier(c: char) -> (b: bool)
    ensures
        b == is_identifier_start(c),
{
    if is_ascii_letter_char(c) || c == '_' {
        true
    } else if c as u32 > 0x7f {
        c.is_alphabetic()
    } else {
        false
    }
}

fn continues_identifier(c: char) -> (b: bool)
    ensures
        b == is_identifier_part(c),
{
    if is_ascii_letter_char(c) || is_digit_char(c) || c == '_' {
        true
    } else if c as u32 > 0x7f {
        c.is_alphanumeric()
    } else {
        false
    }
}

fn punctuation_kind(c: char) -> (kind: Option<TokenType>)
    ensures
        kind == punctuation(c),
{
    match c {
        '(' => Some(TokenType::LeftParen),
        ')' => Some(TokenType::RightParen),
        '{' => Some(TokenType::LeftBrace),
        '}' => Some(TokenType::RightBrace),
        ',' => Some(TokenType::Comma),
        '.' => Some(TokenType::Dot),
        '-' => Some(TokenType::Minus),
        '+' => Some(TokenType::Plus),
        ';' => Some(TokenType::Semicolon),
        '/' => Some(TokenType::Slash),
        '*' => Some(TokenType::Star),
        _ => None,
    }
}

fn operator_kind(c: char, followed: bool) -> (kind: Option<TokenType>)
    ensures
        kind == operator(c, followed),
{
    match c {
        '!' => Some(if followed { TokenType::BangEqual } else { TokenType::Bang }),
        '=' => Some(if followed { TokenType::EqualEqual } else { TokenType::Equal }),
        '>' => Some(if followed { TokenType::GreaterEqual } else { TokenType::Greater }),
        '<' => Some(if followed { TokenType::LessEqual } else { TokenType::Less }),
        _ => None,
    }
}

fn keyword_kind(chars: &Vec<char>, from: usize, to: usize) -> (kind: TokenType)
    requires
        from <= to <= chars.len(),
    ensures
        kind == word_kind(chars@.subrange(from as int, to as int)),
{
    if spells(chars, from, to, "and") {
        TokenType::And
    } else if spells(chars, from, to, "class") {
        TokenType::Class
    } else if spells(chars, from, to, "else") {
        TokenType::Else
    } else if spells(chars, from, to, "false") {
        TokenType::False
    } else if spells(chars, from, to, "fn") {
        TokenType::Function
    } else if spells(chars, from, to, "for") {
        TokenType::For
    } else if spells(chars, from, to, "if") {
        TokenType::If
    } else if spells(chars, from, to, "nil") {
        TokenType::Nil
    } else if spells(chars, from, to, "or") {
        TokenType::Or
    } else if spells(chars, from, to, "print") {
        TokenType::Print
    } else if spells(chars, from, to, "return") {
        TokenType::Return
    } else if spells(chars, from, to, "super") {
        TokenType::Super
    } else if spells(chars, from, to, "this") {
        TokenType::This
    } else if spells(chars, from, to, "true") {
        TokenType::True
    } else if spells(chars, from, to, "let") {
        TokenType::Variable
    } else if spells(chars, from, to, "while") {
        TokenType::While
    } else if spells(chars, from, to, "break") {
        TokenType::Break
    } else if spells(chars, from, to, "continue") {
        TokenType::Continue
    } else {
        TokenType::Identifier
    }
}

fn saturating_next(n: u32) -> (m: u32)
    ensures
        m == if n < u32::MAX { n + 1 } else { n as int },
{
    if n < u32::MAX {
        n + 1
    } else {
        n
    }
}

/// The line and column of index `to`, from those of index `from`.
fn advance_position(chars: &Vec<char>, from: usize, to: usize, line: u32, column: u32) -> (p: (
    u32,
    u32,
))
    requires
        from <= to <= chars.len(),
        line == saturate(line_at(chars@, from as int)),
        column == saturate(column_at(chars@, from as int)),
    ensures
        p.0 == saturate(line_at(chars@, to as int)),
        p.1 == saturate(column_at(chars@, to as int)),
{
    let mut line: u32 = line;
    let mut column: u32 = column;
    let mut i: usize = from;
    while i < to
        invariant
            from <= i <= to <= chars.len(),
            line == saturate(line_at(chars@, i as int)),
            column == saturate(column_at(chars@, i as int)),
        decreases to - i,
    {
        if chars[i] == '\n' {
            line = saturating_next(line);
            column = 1;
        } else {
            column = saturating_next(column);
        }
        i += 1;
    }
    (line, column)
}

/// The index where the run of characters that meet `condition` ends, from
/// `start` on.
fn take_while<F: Fn(char) -> bool>(chars: &Vec<char>, start: usize, condition: F) -> (end: usize)
    requires
        start <= chars.len(),
        forall|c: char| condition.requires((c,)),
    ensures
        start <= end <= chars.len(),
        forall|k: int| start <= k < end ==> condition.ensures((chars@[k],), true),
        end < chars.len() ==> condition.ensures((chars@[end as int],), false),
{
    let mut end: usize = start;
    while end < chars.len()
        invariant
            start <= end <= chars.len(),
            forall|c: char| condition.requires((c,)),
            forall|k: int| start <= k < end ==> condition.ensures((chars@[k],), true),
        ensures
            start <= end <= chars.len(),
            forall|k: int| start <= k < end ==> condition.ensures((chars@[k],), true),
            end < chars.len() ==> condition.ensures((chars@[end as int],), false),
        decreases chars.len() - end,
    {
        if condition(chars[end]) {
            end += 1;
        } else {
            break;
        }
    }
    end
}

pub proof fn lemma_identifier_end_is(s: Seq<char>, i: int, j: int)
    requires
        0 <= i <= j <= s.len(),
        forall|k: int| i <= k < j ==> is_identifier_part(s[k]),
        j < s.len() ==> !is_identifier_part(s[j]),
    ensures
        identifier_end(s, i) == j,
    decreases j - i,
{
    if i < j {
        lemma_identifier_end_is(s, i + 1, j);
    }
}

pub proof fn lemma_digits_end_is(s: Seq<char>, i: int, j: int)
    requires
        0 <= i <= j <= s.len(),
        forall|k: int| i <= k < j ==> is_digit(s[k]),
        j < s.len() ==> !is_digit(s[j]),
    ensures
        digits_end(s, i) == j,
    decreases j - i,
{
    if i < j {
        lemma_digits_end_is(s, i + 1, j);
    }
}

pub proof fn lemma_quote_index_is(s: Seq<char>, i: int, j: int)
    requires
        0 <= i <= j <= s.len(),
        forall|k: int| i <= k < j ==> s[k] != '"',
        j < s.len() ==> s[j] == '"',
    ensures
        quote_index(s, i) == j,
    decreases j - i,
{
    if i < j {
        lemma_quote_index_is(s, i + 1, j);
    }
}

/// The token of kind `token_type` that spans `width` characters from
/// `start` on and denotes no value.
fn single_char_token(
    token_type: TokenType,
    chars: &Vec<char>,
    start: usize,
    width: usize,
    line: u32,
    column: u32,
) -> (token: Token)
    requires
        start + width <= chars.len(),
    ensures
        token@ == (TokenView {
            token_type,
            lexeme: chars@.subrange(start as int, start + width),
            literal: None,
            line: line as nat,
            column: column as nat,
        }),
{
    Token {
        token_type,
        lexeme: substring(chars, start, start + width),
        literal: None,
        line,
        column,
    }
}

/// The string that begins with the quote at `start`: its token, if the text
/// closes it, and the index where it ends.
fn string_token(chars: &Vec<char>, start: usize, line: u32, column: u32) -> (r: (
    Option<Token>,
    usize,
))
    requires
        start < chars.len(),
        chars@[start as int] == '"',
    ensures
        r.1 == lexeme_at(chars@, start as int).end,
        start < r.1 <= chars.len(),
        r.0 is Some == lexeme_at(chars@, start as int).kind is Some,
        r.0 matches Some(token) ==> token@ == (TokenView {
            token_type: TokenType::String,
            lexeme: chars@.subrange(start as int, r.1 as int),
            literal: literal_of(TokenType::String, chars@.subrange(start as int, r.1 as int)),
            line: line as nat,
            column: column as nat,
        }),
{
    let not_quote = |c: char| -> (b: bool)
        ensures
            b == (c != '"'),
        { c != '"' };
    let close: usize = take_while(chars, start + 1, not_quote);
    proof {
        lemma_quote_index_is(chars@, start + 1, close as int);
    }
    if close < chars.len() {
        let lexeme = substring(chars, start, close + 1);
        let value = substring(chars, start + 1, close);
        assert(chars@.subrange(start as int, close + 1).subrange(1, close + 1 - start - 1)
            =~= chars@.subrange(start + 1, close as int));
        (
            Some(
                Token {
                    token_type: TokenType::String,
                    lexeme,
                    literal: Some(Literal::String(value)),
                    line,
                    column,
                },
            ),
            close + 1,
        )
    } else {
        (None, close)
    }
}

/// The word that begins at `start`: its token, a keyword's or an
/// identifier's, and the index where it ends.
fn identifier_or_keyword(chars: &Vec<char>, start: usize, line: u32, column: u32) -> (r: (
    Token,
    usize,
))
    requires
        start < chars.len(),
        is_identifier_start(chars@[start as int]),
        punctuation(chars@[start as int]) is None,
        operator(chars@[start as int], false) is None,
        chars@[start as int] != '"',
    ensures
        r.1 == lexeme_at(chars@, start as int).end,
        start < r.1 <= chars.len(),
        Some(r.0@.token_type) == lexeme_at(chars@, start as int).kind,
        r.0@ == (TokenView {
            token_type: r.0@.token_type,
            lexeme: chars@.subrange(start as int, r.1 as int),
            literal: None,
            line: line as nat,
            column: column as nat,
        }),
{
    let part = |c: char| -> (b: bool)
        ensures
            b == is_identifier_part(c),
        { continues_identifier(c) };
    let end: usize = take_while(chars, start + 1, part);
    proof {
        lemma_identifier_end_is(chars@, start + 1, end as int);
    }
    let token_type = keyword_kind(chars, start, end);
    (Token { token_type, lexeme: substring(chars, start, end), literal: None, line, column }, end)
}

/// The number that begins at `start`: its token and the index where it
/// ends.
fn number_token(chars: &Vec<char>, start: usize, line: u32, column: u32) -> (r: (Token, usize))
    requires
        start < chars.len(),
        is_digit(chars@[start as int]),
    ensures
        r.1 == number_end(chars@, start as int),
        start < r.1 <= chars.len(),
        r.0@ == (TokenView {
            token_type: TokenType::Number,
            lexeme: chars@.subrange(start as int, r.1 as int),
            literal: literal_of(TokenType::Number, chars@.subrange(start as int, r.1 as int)),
            line: line as nat,
            column: column as nat,
        }),
{
    let digit = |c: char| -> (b: bool)
        ensures
            b == is_digit(c),
        { is_digit_char(c) };
    let whole: usize = take_while(chars, start, digit);
    proof {
        lemma_digits_end_is(chars@, start as int, whole as int);
    }
    let end: usize = if whole < chars.len() && chars[whole] == '.' {
        let digit = |c: char| -> (b: bool)
            ensures
                b == is_digit(c),
            { is_digit_char(c) };
        let end: usize = take_while(chars, whole + 1, digit);
        proof {
            lemma_digits_end_is(chars@, whole + 1, end as int);
        }
        end
    } else {
        whole
    };
    let lexeme = substring(chars, start, end);
    let numeral = substring(chars, start, end);
    (
        Token {
            token_type: TokenType::Number,
            lexeme,
            literal: Some(Literal::Number(numeral)),
            line,
            column,
        },
        end,
    )
}

/// Scans `source`: its tokens in the order of the text, and the end token
/// last.
///
/// A token's line and column are those of its first character; a count
/// beyond `u32::MAX` is held as `u32::MAX`. The scanner reports nothing:
/// what begins no token is passed over, and so is a string that the text
/// does not close.
pub fn tokenize(source: &str) -> (tokens: Vec<Token>)
    ensures
        token_views(tokens@) == bounded_all(scan(source@)),
        terminated(token_views(tokens@)),
{
    let chars = to_chars(source);
    let mut tokens: Vec<Token> = Vec::new();
    let mut line: u32 = 1;
    let mut column: u32 = 1;
    let mut i: usize = 0;
    while i < chars.len()
        invariant
            i <= chars.len(),
            line == saturate(line_at(chars@, i as int)),
            column == saturate(column_at(chars@, i as int)),
            bounded_all(scan(chars@)) == token_views(tokens@) + bounded_all(
                scan_from(chars@, i as int),
            ),
        decreases chars.len() - i,
    {
        let c = chars[i];
        let ghost before = token_views(tokens@);
        let end: usize;
        proof {
            lemma_lexeme_advances(chars@, i as int);
        }
        if let Some(kind) = punctuation_kind(c) {
            tokens.push(single_char_token(kind, &chars, i, 1, line, column));
            end = i + 1;
        } else if operator_kind(c, false).is_some() {
            let followed = i + 1 < chars.len() && chars[i + 1] == '=';
            let width: usize = if followed { 2 } else { 1 };
            let kind = operator_kind(c, followed).unwrap();
            tokens.push(single_char_token(kind, &chars, i, width, line, column));
            end = i + width;
        } else if c == '"' {
            let (token, after) = string_token(&chars, i, line, column);
            if let Some(token) = token {
                tokens.push(token);
            }
            end = after;
        } else if starts_identifier(c) {
            let (token, after) = identifier_or_keyword(&chars, i, line, column);
            tokens.push(token);
            end = after;
        } else if is_digit_char(c) {
            let (token, after) = number_token(&chars, i, line, column);
            tokens.push(token);
            end = after;
        } else {
            end = i + 1;
        }
        proof {
            let s = chars@;
            let lexeme = lexeme_at(s, i as int);
            assert(end == lexeme.end);
            let rest = scan_from(s, end as int);
            match lexeme.kind {
                Some(kind) => {
                    let t = token_at(s, i as int, kind, end as int);
                    assert(scan_from(s, i as int) == seq![t] + rest);
                    assert(tokens@.len() == before.len() + 1);
                    assert(tokens@[tokens@.len() - 1]@ == bounded(t));
                    assert(token_views(tokens@) =~= before.push(bounded(t)));
                    assert(bounded_all(seq![t] + rest) =~= seq![bounded(t)] + bounded_all(rest));
                    assert(before + (seq![bounded(t)] + bounded_all(rest)) =~= before.push(
                        bounded(t),
                    ) + bounded_all(rest));
                },
                None => {
                    assert(scan_from(s, i as int) == rest);
                    assert(token_views(tokens@) =~= before);
                },
            }
        }
        let (next_line, next_column) = advance_position(&chars, i, end, line, column);
        line = next_line;
        column = next_column;
        i = end;
    }
    let ghost before = token_views(tokens@);
    tokens.push(Token { token_type: TokenType::Eof, lexeme: String::new(), literal: None, line, column });
    proof {
        let s = chars@;
        assert(scan_from(s, i as int) == seq![end_token(s)]);
        assert(bounded_all(seq![end_token(s)]) =~= seq![bounded(end_token(s))]);
        assert(token_views(tokens@) =~= before.push(bounded(end_token(s))));
        assert(before + seq![bounded(end_token(s))] =~= before.push(bounded(end_token(s))));
    }
    tokens
}

} // verus!
