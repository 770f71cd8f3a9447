//! A program that is parsed, written out and parsed again is the same
//! program.

use vstd::prelude::*;
use crate::lang::errors::ErrorView;
use crate::lang::grammar::{at_end, parse_tokens};
use crate::lang::lexer::{
    bounded,
    bounded_all,
    end_token,
    scan,
    TokenType,
    TokenView,
};
use crate::lang::laws::scanning::{
    law_spaced_lexemes_scan_back,
    law_tokens_are_source_text,
    lemma_scan_length,
    lemma_scan_tokens,
    lexemes,
    single_token,
};
use crate::lang::parser::StatementView;
use crate::lang::laws::expressions::{scannable, well_scanned, went_well};
use crate::lang::laws::steps::{lemma_program_named, program_at};
use crate::lang::rendering::{
    placeless_statements,
    rendered,
    statements_tokens,
};
use crate::lang::laws::statements::{
    lemma_program_sound,
    lemma_scannable_at,
    token_stands,
    written,
};
use crate::lang::laws::reading_statements::lemma_program_back;

verus! {

/// The tokens of a scan, with their places as tokens hold them, are tokens
/// as the scanner makes them.
pub proof fn lemma_scan_is_well_scanned(source: Seq<char>)
    ensures
        well_scanned(bounded_all(scan(source))),
        bounded_all(scan(source)).len() == scan(source).len(),
        scan(source).len() >= 1,
{
    reveal(well_scanned);
    reveal(scannable);
    let ts = bounded_all(scan(source));
    lemma_scan_length(source, 0);
    lemma_scan_tokens(source, 0, scan(source).len() - 1);
    assert forall|i: int| 0 <= i < ts.len() - 1 implies (#[trigger] ts[i]).token_type
        != TokenType::Eof && scannable(ts[i]) by {
        law_tokens_are_source_text(source, i);
    }
}

/// What a successful parse of `ts` found is what the program loop found.
pub proof fn lemma_parse_is_program(ts: Seq<TokenView>)
    ensures
        parse_tokens(ts) is Ok <==> went_well(program_at(ts, Seq::empty(), 0, Seq::empty())),
        parse_tokens(ts) is Ok ==> parse_tokens(ts)->Ok_0 == program_at(
            ts,
            Seq::empty(),
            0,
            Seq::empty(),
        ).value->0,
{
    lemma_program_named(ts, Seq::empty(), 0, Seq::empty());
}

/// The canonical text of a program that was parsed from a source text is
/// scanned and parsed as the same program, but for the places of its
/// tokens.
pub proof fn law_rendered_program_parses_back(source: Seq<char>)
    requires
        parse_tokens(bounded_all(scan(source))) is Ok,
    ensures
        parse_tokens(
            bounded_all(scan(rendered(parse_tokens(bounded_all(scan(source)))->Ok_0))),
        ) is Ok,
        placeless_statements(
            parse_tokens(
                bounded_all(scan(rendered(parse_tokens(bounded_all(scan(source)))->Ok_0))),
            )->Ok_0,
        ) == placeless_statements(parse_tokens(bounded_all(scan(source)))->Ok_0),
{
    let ts = bounded_all(scan(source));
    let empty = Seq::<StatementView>::empty();
    let none = Seq::<ErrorView>::empty();
    lemma_scan_is_well_scanned(source);
    lemma_parse_is_program(ts);
    let program = parse_tokens(ts)->Ok_0;
    lemma_program_sound(ts, empty, 0, none);
    let tokens = statements_tokens(program, 0);
    let words = lexemes(tokens);
    let text = rendered(program);
    assert forall|i: int| 0 <= i < words.len() implies single_token(#[trigger] words[i]) by {
        lemma_scannable_at(tokens, i);
        reveal(scannable);
    }
    law_spaced_lexemes_scan_back(words);
    let ts2 = bounded_all(scan(text));
    assert(written(ts2, 0, tokens)) by {
        reveal(written);
        assert forall|k: int| 0 <= k < tokens.len() implies #[trigger] token_stands(
            ts2,
            0,
            tokens,
            k,
        ) by {
            lemma_scannable_at(tokens, k);
            reveal(scannable);
            let t = scan(text)[k];
            assert(words[k] == tokens[k].lexeme);
            assert(ts2[0 + k] == bounded(t));
        }
    }
    assert(at_end(ts2, 0 + tokens.len() as int)) by {
        assert(ts2[tokens.len() as int] == bounded(end_token(text)));
    }
    lemma_program_back(ts, empty, 0, none, ts2, empty, 0, none);
    lemma_parse_is_program(ts2);
}

} // verus!
