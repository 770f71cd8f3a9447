//! What holds of every scan.

use vstd::prelude::*;
use vstd::string::*;
use crate::lang::lexer::{
    column_at,
    digits_end,
    end_token,
    identifier_end,
    is_digit,
    is_identifier_part,
    is_identifier_start,
    lemma_digits_end_is,
    lemma_identifier_end_is,
    lemma_lexeme_advances,
    lemma_quote_index_is,
    lexeme_at,
    line_at,
    literal_of,
    operator,
    punctuation,
    quote_index,
    scan,
    scan_from,
    token_at,
    word_kind,
    Lexeme,
    TokenType,
    TokenView,
};

verus! {

// ---------------------------------------------------------------------------
// Runs of characters
// ---------------------------------------------------------------------------

/// An identifier ends where its characters end.
pub proof fn lemma_identifier_end_run(s: Seq<char>, i: int)
    requires
        0 <= i <= s.len(),
    ensures
        i <= identifier_end(s, i) <= s.len(),
        forall|k: int| i <= k < identifier_end(s, i) ==> is_identifier_part(s[k]),
        identifier_end(s, i) < s.len() ==> !is_identifier_part(s[identifier_end(s, i)]),
    decreases s.len() - i,
{
    if i < s.len() && is_identifier_part(s[i]) {
        lemma_identifier_end_run(s, i + 1);
    }
}

/// A run of digits ends where the digits end.
pub proof fn lemma_digits_end_run(s: Seq<char>, i: int)
    requires
        0 <= i <= s.len(),
    ensures
        i <= digits_end(s, i) <= s.len(),
        forall|k: int| i <= k < digits_end(s, i) ==> is_digit(s[k]),
        digits_end(s, i) < s.len() ==> !is_digit(s[digits_end(s, i)]),
    decreases s.len() - i,
{
    if i < s.len() && is_digit(s[i]) {
        lemma_digits_end_run(s, i + 1);
    }
}

/// The quote that is found is the first one.
pub proof fn lemma_quote_index_run(s: Seq<char>, i: int)
    requires
        0 <= i <= s.len(),
    ensures
        i <= quote_index(s, i) <= s.len(),
        forall|k: int| i <= k < quote_index(s, i) ==> s[k] != '"',
        quote_index(s, i) < s.len() ==> s[quote_index(s, i)] == '"',
    decreases s.len() - i,
{
    if i < s.len() && s[i] != '"' {
        lemma_quote_index_run(s, i + 1);
    }
}

// ---------------------------------------------------------------------------
// A token depends on its own text alone
// ---------------------------------------------------------------------------

/// Two texts that hold the same `n` characters, one from `i1` on and the
/// other from `i2` on, hold the same character `k` places further.
pub proof fn lemma_same_text(s1: Seq<char>, i1: int, s2: Seq<char>, i2: int, n: int, k: int)
    requires
        0 <= i1,
        i1 + n <= s1.len(),
        0 <= i2,
        i2 + n <= s2.len(),
        s2.subrange(i2, i2 + n) == s1.subrange(i1, i1 + n),
        0 <= k < n,
    ensures
        s2[i2 + k] == s1[i1 + k],
{
    assert(s1.subrange(i1, i1 + n)[k] == s1[i1 + k]);
    assert(s2.subrange(i2, i2 + n)[k] == s2[i2 + k]);
}

/// A token is the same wherever its text stands: if a token begins at
/// `i1` in `s1`, and `s2` holds the same text at `i2`, followed by a space
/// or by nothing, then a token of the same kind and length begins at `i2`
/// in `s2`.
pub proof fn lemma_token_is_local(s1: Seq<char>, i1: int, s2: Seq<char>, i2: int)
    requires
        0 <= i1 < s1.len(),
        lexeme_at(s1, i1).kind is Some,
        0 <= i2,
        i2 + (lexeme_at(s1, i1).end - i1) <= s2.len(),
        s2.subrange(i2, i2 + (lexeme_at(s1, i1).end - i1)) == s1.subrange(
            i1,
            lexeme_at(s1, i1).end,
        ),
        i2 + (lexeme_at(s1, i1).end - i1) == s2.len() || s2[i2 + (lexeme_at(s1, i1).end - i1)]
            == ' ',
    ensures
        lexeme_at(s2, i2) == (Lexeme {
            kind: lexeme_at(s1, i1).kind,
            end: i2 + (lexeme_at(s1, i1).end - i1),
        }),
{
    lemma_lexeme_advances(s1, i1);
    let e1 = lexeme_at(s1, i1).end;
    let n = e1 - i1;
    lemma_same_text(s1, i1, s2, i2, n, 0);
    let c = s1[i1];
    if punctuation(c) is Some {
    } else if operator(c, false) is Some {
        if i1 + 1 < s1.len() && s1[i1 + 1] == '=' {
            lemma_same_text(s1, i1, s2, i2, n, 1);
        }
    } else if c == '"' {
        lemma_quote_index_run(s1, i1 + 1);
        let j1 = quote_index(s1, i1 + 1);
        lemma_same_text(s1, i1, s2, i2, n, j1 - i1);
        assert forall|k: int| i2 + 1 <= k < i2 + (j1 - i1) implies #[trigger] s2[k] != '"' by {
            lemma_same_text(s1, i1, s2, i2, n, k - i2);
        }
        lemma_quote_index_is(s2, i2 + 1, i2 + (j1 - i1));
    } else if is_identifier_start(c) {
        lemma_identifier_end_run(s1, i1 + 1);
        assert forall|k: int| i2 + 1 <= k < i2 + n implies is_identifier_part(
            #[trigger] s2[k],
        ) by {
            lemma_same_text(s1, i1, s2, i2, n, k - i2);
        }
        assert(s2.subrange(i2, i2 + n) == s1.subrange(i1, e1));
        lemma_identifier_end_is(s2, i2 + 1, i2 + n);
    } else {
        assert(is_digit(c));
        lemma_digits_end_run(s1, i1);
        let j1 = digits_end(s1, i1);
        if j1 < s1.len() {
            lemma_digits_end_run(s1, j1 + 1);
        }
        assert(j1 - i1 <= n);
        assert forall|k: int| i2 <= k < i2 + (j1 - i1) implies is_digit(#[trigger] s2[k]) by {
            lemma_same_text(s1, i1, s2, i2, n, k - i2);
        }
        if j1 < s1.len() && s1[j1] == '.' {
            lemma_same_text(s1, i1, s2, i2, n, j1 - i1);
            lemma_digits_end_is(s2, i2, i2 + (j1 - i1));
            assert forall|k: int| i2 + (j1 - i1) + 1 <= k < i2 + n implies is_digit(
                #[trigger] s2[k],
            ) by {
                lemma_same_text(s1, i1, s2, i2, n, k - i2);
            }
            lemma_digits_end_is(s2, i2 + (j1 - i1) + 1, i2 + n);
        } else {
            lemma_digits_end_is(s2, i2, i2 + n);
        }
    }
}

/// Whether the text `w` is one token, from its first character to its
/// last.
pub open spec fn single_token(w: Seq<char>) -> bool {
    w.len() > 0 && lexeme_at(w, 0).kind is Some && lexeme_at(w, 0).end == w.len()
}

/// The kind of the token that the text `w` is.
pub open spec fn kind_of(w: Seq<char>) -> TokenType {
    lexeme_at(w, 0).kind->0
}

// ---------------------------------------------------------------------------
// Where the tokens stand
// ---------------------------------------------------------------------------

/// The indices where the tokens of `s` from index `i` on begin, and the
/// length of `s` for the end token.
pub open spec fn starts_from(s: Seq<char>, i: int) -> Seq<int>
    decreases s.len() - i,
{
    if 0 <= i < s.len() {
        let lexeme = lexeme_at(s, i);
        proof {
            lemma_lexeme_advances(s, i);
        }
        match lexeme.kind {
            Some(_) => seq![i] + starts_from(s, lexeme.end),
            None => starts_from(s, lexeme.end),
        }
    } else {
        seq![s.len() as int]
    }
}

/// Each token of a scan is the lexeme that begins where the token stands;
/// the tokens stand in the order of the text and do not overlap; the end
/// token comes last.
pub proof fn lemma_scan_tokens(s: Seq<char>, i: int, n: int)
    requires
        0 <= i <= s.len(),
        0 <= n < scan_from(s, i).len(),
    ensures
        starts_from(s, i).len() == scan_from(s, i).len(),
        i <= starts_from(s, i)[n] <= s.len(),
        n == scan_from(s, i).len() - 1 ==> starts_from(s, i)[n] == s.len() && scan_from(s, i)[n]
            == end_token(s),
        n < scan_from(s, i).len() - 1 ==> {
            let start = starts_from(s, i)[n];
            let lexeme = lexeme_at(s, start);
            &&& start < s.len()
            &&& lexeme.kind is Some
            &&& scan_from(s, i)[n] == token_at(s, start, lexeme.kind->0, lexeme.end)
            &&& lexeme.end <= starts_from(s, i)[n + 1]
        },
    decreases s.len() - i,
{
    if i < s.len() {
        let lexeme = lexeme_at(s, i);
        lemma_lexeme_advances(s, i);
        lemma_scan_length(s, lexeme.end);
        match lexeme.kind {
            Some(kind) => {
                if n > 0 {
                    lemma_scan_tokens(s, lexeme.end, n - 1);
                } else {
                    lemma_scan_tokens(s, lexeme.end, 0);
                }
            },
            None => {
                lemma_scan_tokens(s, lexeme.end, n);
            },
        }
    }
}

/// A scan holds as many tokens as there are places where they begin, and
/// at least the end token.
pub proof fn lemma_scan_length(s: Seq<char>, i: int)
    requires
        0 <= i <= s.len(),
    ensures
        starts_from(s, i).len() == scan_from(s, i).len(),
        scan_from(s, i).len() >= 1,
    decreases s.len() - i,
{
    if i < s.len() {
        lemma_lexeme_advances(s, i);
        lemma_scan_length(s, lexeme_at(s, i).end);
    }
}

/// Lines do not decrease along the text, and every newline begins a new
/// one: an index behind a newline is on a later line than the newline.
pub proof fn lemma_lines_grow(s: Seq<char>, i: int, j: int)
    requires
        0 <= i <= j <= s.len(),
    ensures
        line_at(s, i) <= line_at(s, j),
        i < j && s[i] == '\n' ==> line_at(s, i) < line_at(s, j),
    decreases j - i,
{
    if i < j {
        lemma_lines_grow(s, i, j - 1);
    }
}

/// The line of a token is one more than the number of newlines before it,
/// so a token that begins behind a newline is on a later line than every
/// token that begins at or before it.
pub proof fn law_newline_moves_tokens_down(s: Seq<char>, m: int, n: int, k: int)
    requires
        0 <= m < n < scan(s).len(),
        starts_from(s, 0)[m] <= k < starts_from(s, 0)[n],
        s[k] == '\n',
    ensures
        scan(s)[m].line < scan(s)[n].line,
        scan(s)[m].line == line_at(s, starts_from(s, 0)[m]),
        scan(s)[n].line == line_at(s, starts_from(s, 0)[n]),
{
    lemma_scan_tokens(s, 0, m);
    lemma_scan_tokens(s, 0, n);
    lemma_lines_grow(s, starts_from(s, 0)[m], k);
    lemma_lines_grow(s, k, starts_from(s, 0)[n]);
}

/// The lexeme of every token is the text between its place and the next
/// lexeme, and its line and column are those of its first character.
pub proof fn law_tokens_are_source_text(s: Seq<char>, n: int)
    requires
        0 <= n < scan(s).len() - 1,
    ensures
        ({
            let start = starts_from(s, 0)[n];
            let token = scan(s)[n];
            &&& 0 <= start < s.len()
            &&& start + token.lexeme.len() <= starts_from(s, 0)[n + 1] <= s.len()
            &&& token.lexeme == s.subrange(start, start + token.lexeme.len())
            &&& token.lexeme.len() > 0
            &&& token.line == line_at(s, start)
            &&& token.column == column_at(s, start)
            &&& single_token(token.lexeme)
            &&& token.token_type == kind_of(token.lexeme)
            &&& token.literal == literal_of(token.token_type, token.lexeme)
            &&& token.token_type != TokenType::Eof
        }),
{
    lemma_scan_tokens(s, 0, n);
    lemma_scan_tokens(s, 0, n + 1);
    let start = starts_from(s, 0)[n];
    lemma_lexeme_advances(s, start);
    let lexeme = lexeme_at(s, start);
    let w = s.subrange(start, lexeme.end);
    assert(w.subrange(0, w.len() as int) =~= w);
    lemma_token_is_local(s, start, w, 0);
    lemma_kinds_of_lexemes(s, start);
}

/// No lexeme is an end token.
pub proof fn lemma_kinds_of_lexemes(s: Seq<char>, i: int)
    requires
        0 <= i < s.len(),
    ensures
        lexeme_at(s, i).kind != Some(TokenType::Eof),
{
}


// ---------------------------------------------------------------------------
// Lexemes, spaced out
// ---------------------------------------------------------------------------

/// The texts `words` in a row, with one space between each two.
pub open spec fn spaced(words: Seq<Seq<char>>) -> Seq<char>
    decreases words.len(),
{
    if words.len() == 0 {
        Seq::empty()
    } else if words.len() == 1 {
        words[0]
    } else {
        words[0] + seq![' '] + spaced(words.drop_first())
    }
}

/// The texts `words` in a row, with nothing between them.
pub open spec fn joined(words: Seq<Seq<char>>) -> Seq<char>
    decreases words.len(),
{
    if words.len() == 0 {
        Seq::empty()
    } else {
        joined(words.drop_last()) + words.last()
    }
}

/// The lexemes of the tokens `ts`, in order.
pub open spec fn lexemes(ts: Seq<TokenView>) -> Seq<Seq<char>> {
    Seq::new(ts.len(), |i: int| ts[i].lexeme)
}

/// The scan of a text that ends, from `o` on, with the spaced-out tokens
/// `words`: token `n` of it is `words[n]`, and the end token follows the
/// last.
pub proof fn lemma_spaced_scan(text: Seq<char>, o: int, words: Seq<Seq<char>>, n: int)
    requires
        0 <= o <= text.len(),
        text.subrange(o, text.len() as int) == spaced(words),
        forall|i: int| 0 <= i < words.len() ==> single_token(#[trigger] words[i]),
        0 <= n <= words.len(),
    ensures
        scan_from(text, o).len() == words.len() + 1,
        n < words.len() ==> {
            let token = scan_from(text, o)[n];
            &&& token.lexeme == words[n]
            &&& token.token_type == kind_of(words[n])
            &&& token.literal == literal_of(kind_of(words[n]), words[n])
        },
        n == words.len() ==> scan_from(text, o)[n] == end_token(text),
    decreases words.len(),
{
    let tail = text.subrange(o, text.len() as int);
    if words.len() == 0 {
        assert(tail.len() == 0);
    } else {
        let w = words[0];
        let rest = words.drop_first();
        assert(single_token(w));
        assert(w.subrange(0, w.len() as int) =~= w);
        if words.len() == 1 {
            assert(tail == w);
            assert(text.subrange(o, o + w.len()) =~= w);
        } else {
            assert(tail == w + seq![' '] + spaced(rest));
            assert(text.subrange(o, o + w.len()) =~= w) by {
                assert forall|k: int| 0 <= k < w.len() implies text[o + k] == w[k] by {
                    assert(tail[k] == text[o + k]);
                }
            }
            assert(text[o + w.len()] == ' ') by {
                assert(tail[w.len() as int] == text[o + w.len()]);
            }
        }
        lemma_token_is_local(w, 0, text, o);
        let end = o + w.len();
        assert(lexeme_at(text, o) == Lexeme { kind: lexeme_at(w, 0).kind, end });
        assert(scan_from(text, o) == seq![token_at(text, o, kind_of(w), end)] + scan_from(
            text,
            end,
        ));
        if words.len() == 1 {
            assert(scan_from(text, end) == seq![end_token(text)]);
            assert(rest.len() == 0);
        } else {
            assert(lexeme_at(text, end) == Lexeme { kind: None, end: end + 1 });
            assert(scan_from(text, end) == scan_from(text, end + 1));
            assert(text.subrange(end + 1, text.len() as int) =~= spaced(rest)) by {
                assert forall|k: int| 0 <= k < spaced(rest).len() implies text[end + 1 + k]
                    == spaced(rest)[k] by {
                    assert(tail[w.len() + 1 + k] == text[o + (w.len() + 1 + k)]);
                }
            }
            assert forall|i: int| 0 <= i < rest.len() implies single_token(#[trigger] rest[i]) by {
                assert(rest[i] == words[i + 1]);
            }
            if n > 0 {
                lemma_spaced_scan(text, end + 1, rest, n - 1);
                if n < words.len() {
                    assert(rest[n - 1] == words[n]);
                }
            } else {
                lemma_spaced_scan(text, end + 1, rest, 0);
            }
        }
    }
}

/// Tokens that are written one after the other, with single spaces
/// between them, are scanned as they were written: the scan holds one
/// token for each, of its kind and with its text as lexeme, and the end
/// token; the lexemes in a row are the texts in a row.
pub proof fn law_spaced_lexemes_scan_back(words: Seq<Seq<char>>)
    requires
        forall|i: int| 0 <= i < words.len() ==> single_token(#[trigger] words[i]),
    ensures
        scan(spaced(words)).len() == words.len() + 1,
        forall|i: int|
            0 <= i < words.len() ==> {
                let token = #[trigger] scan(spaced(words))[i];
                &&& token.lexeme == words[i]
                &&& token.token_type == kind_of(words[i])
                &&& token.literal == literal_of(kind_of(words[i]), words[i])
            },
        scan(spaced(words))[words.len() as int] == end_token(spaced(words)),
        lexemes(scan(spaced(words))) == words.push(Seq::empty()),
        joined(lexemes(scan(spaced(words)))) == joined(words),
{
    let text = spaced(words);
    assert(text.subrange(0, text.len() as int) =~= text);
    lemma_spaced_scan(text, 0, words, words.len() as int);
    assert forall|i: int| 0 <= i < words.len() implies {
        let token = #[trigger] scan(text)[i];
        &&& token.lexeme == words[i]
        &&& token.token_type == kind_of(words[i])
        &&& token.literal == literal_of(kind_of(words[i]), words[i])
    } by {
        lemma_spaced_scan(text, 0, words, i);
    }
    assert(lexemes(scan(text)) =~= words.push(Seq::empty()));
    assert(words.push(Seq::empty()).drop_last() =~= words);
    assert(joined(words.push(Seq::empty())) =~= joined(words));
}

// ---------------------------------------------------------------------------
// The kinds that have one lexeme
// ---------------------------------------------------------------------------

/// The lexeme of a kind of token that is always written in one way: a
/// punctuation mark, an operator or a keyword.
pub open spec fn fixed_lexeme(kind: TokenType) -> Option<Seq<char>> {
    match kind {
        TokenType::LeftParen => Some("("@),
        TokenType::RightParen => Some(")"@),
        TokenType::LeftBrace => Some("{"@),
        TokenType::RightBrace => Some("}"@),
        TokenType::Comma => Some(","@),
        TokenType::Dot => Some("."@),
        TokenType::Minus => Some("-"@),
        TokenType::Plus => Some("+"@),
        TokenType::Semicolon => Some(";"@),
        TokenType::Slash => Some("/"@),
        TokenType::Star => Some("*"@),
        TokenType::Bang => Some("!"@),
        TokenType::BangEqual => Some("!="@),
        TokenType::Equal => Some("="@),
        TokenType::EqualEqual => Some("=="@),
        TokenType::Greater => Some(">"@),
        TokenType::GreaterEqual => Some(">="@),
        TokenType::Less => Some("<"@),
        TokenType::LessEqual => Some("<="@),
        TokenType::And => Some("and"@),
        TokenType::Class => Some("class"@),
        TokenType::Else => Some("else"@),
        TokenType::False => Some("false"@),
        TokenType::Function => Some("fn"@),
        TokenType::For => Some("for"@),
        TokenType::If => Some("if"@),
        TokenType::Nil => Some("nil"@),
        TokenType::Or => Some("or"@),
        TokenType::Print => Some("print"@),
        TokenType::Return => Some("return"@),
        TokenType::Super => Some("super"@),
        TokenType::This => Some("this"@),
        TokenType::True => Some("true"@),
        TokenType::Variable => Some("let"@),
        TokenType::While => Some("while"@),
        TokenType::Break => Some("break"@),
        TokenType::Continue => Some("continue"@),
        TokenType::Identifier => None,
        TokenType::String => None,
        TokenType::Number => None,
        TokenType::Eof => None,
    }
}

/// A text of lower-case letters `a`..`z` that is not a keyword is an
/// identifier, and a keyword is a token of its kind.
proof fn lemma_lower_case_word(w: Seq<char>)
    requires
        w.len() > 0,
        forall|k: int| 0 <= k < w.len() ==> 'a' <= #[trigger] w[k] <= 'z',
    ensures
        single_token(w),
        kind_of(w) == word_kind(w),
{
    lemma_identifier_end_is(w, 1, w.len() as int);
    assert(w.subrange(0, w.len() as int) =~= w);
}

/// Every punctuation mark, operator and keyword, written as
/// [`fixed_lexeme`] says, is one token of its kind.
pub proof fn law_fixed_lexemes_are_tokens(kind: TokenType)
    requires
        fixed_lexeme(kind) is Some,
    ensures
        single_token(fixed_lexeme(kind)->0),
        kind_of(fixed_lexeme(kind)->0) == kind,
{
    reveal_strlit("(");
    reveal_strlit(")");
    reveal_strlit("{");
    reveal_strlit("}");
    reveal_strlit(",");
    reveal_strlit(".");
    reveal_strlit("-");
    reveal_strlit("+");
    reveal_strlit(";");
    reveal_strlit("/");
    reveal_strlit("*");
    reveal_strlit("!");
    reveal_strlit("!=");
    reveal_strlit("=");
    reveal_strlit("==");
    reveal_strlit(">");
    reveal_strlit(">=");
    reveal_strlit("<");
    reveal_strlit("<=");
    reveal_strlit("and");
    reveal_strlit("class");
    reveal_strlit("else");
    reveal_strlit("false");
    reveal_strlit("fn");
    reveal_strlit("for");
    reveal_strlit("if");
    reveal_strlit("nil");
    reveal_strlit("or");
    reveal_strlit("print");
    reveal_strlit("return");
    reveal_strlit("super");
    reveal_strlit("this");
    reveal_strlit("true");
    reveal_strlit("let");
    reveal_strlit("while");
    reveal_strlit("break");
    reveal_strlit("continue");
    let w = fixed_lexeme(kind)->0;
    if punctuation(w[0]) is Some {
    } else if operator(w[0], false) is Some {
    } else {
        lemma_lower_case_word(w);
    }
}

/// A row of digits, and such a row with one decimal point in it or behind
/// it, is a number.
pub proof fn law_numerals_are_tokens(w: Seq<char>, point: int)
    requires
        0 < point <= w.len(),
        forall|k: int| 0 <= k < w.len() && k != point ==> is_digit(#[trigger] w[k]),
        point < w.len() ==> w[point] == '.',
    ensures
        single_token(w),
        kind_of(w) == TokenType::Number,
{
    lemma_digits_end_is(w, 0, point);
    if point < w.len() {
        lemma_digits_end_is(w, point + 1, w.len() as int);
    }
}

/// A text between two quotes that holds no quote itself is a string.
pub proof fn law_quoted_texts_are_tokens(w: Seq<char>)
    requires
        w.len() >= 2,
        w[0] == '"',
        w[w.len() - 1] == '"',
        forall|k: int| 0 < k < w.len() - 1 ==> #[trigger] w[k] != '"',
    ensures
        single_token(w),
        kind_of(w) == TokenType::String,
{
    lemma_quote_index_is(w, 1, w.len() - 1);
}

/// A word that begins with a letter or `_`, goes on with letters, digits
/// and `_`, and is no keyword, is an identifier.
pub proof fn law_words_are_tokens(w: Seq<char>)
    requires
        w.len() > 0,
        is_identifier_start(w[0]),
        forall|k: int| 0 < k < w.len() ==> is_identifier_part(#[trigger] w[k]),
    ensures
        single_token(w),
        kind_of(w) == word_kind(w),
{
    lemma_identifier_end_is(w, 1, w.len() as int);
    assert(w.subrange(0, w.len() as int) =~= w);
}

} // verus!
