//! What follows from the lexical rules, proved once for every text.

use vstd::prelude::*;
use crate::unicode::{ClassifiedChar, chars_of, classified_text};
use crate::tokenize::{Keyword, LexError, LexErrorKind, Token, TokenView, outcome_view};
use crate::lexis::{
    CharKind, has_kind, identifier_start, identifier_part, run_length, lemma_run_length, keyword_of,
    word_token, token_at, lemma_token_at_bounds, block_tokens, blocks_from, blocks, blocks_tokens,
    lexed, wrap_i32,
};

verus! {

/// Tokenizing is deterministic: two outcomes that both meet the contract of
/// the tokenizer for the same text are the same, token for token.
pub proof fn tokenizing_is_deterministic(
    code: Seq<char>,
    first: Result<Vec<Token>, LexError>,
    second: Result<Vec<Token>, LexError>,
)
    requires
        outcome_view(first) == lexed(classified_text(code)),
        outcome_view(second) == lexed(classified_text(code)),
    ensures
        outcome_view(first) == outcome_view(second),
        first is Ok <==> second is Ok,
        first matches Ok(a) ==> second matches Ok(b) ==> a@.len() == b@.len() && forall|i: int|
            0 <= i < a@.len() ==> a@[i]@ == b@[i]@,
{
    match (first, second) {
        (Ok(a), Ok(b)) => {
            let va = outcome_view(first)->Ok_0;
            let vb = outcome_view(second)->Ok_0;
            assert(va == vb);
            assert(va.len() == a@.len());
            assert(vb.len() == b@.len());
            assert forall|i: int| 0 <= i < a@.len() implies a@[i]@ == b@[i]@ by {
                assert(va[i] == a@[i]@);
                assert(vb[i] == b@[i]@);
            }
        },
        _ => {},
    }
}

/// How a reserved word is spelled.
pub open spec fn spelling(k: Keyword) -> Seq<char> {
    match k {
        Keyword::FN => "fn"@,
        Keyword::RETURN => "return"@,
        Keyword::VAL => "val"@,
        Keyword::IF => "if"@,
        Keyword::ELSIF => "elsif"@,
        Keyword::ELSE => "else"@,
    }
}

/// Every reserved word is recognised as itself, and a text is recognised as
/// a reserved word only where it spells that word.
pub proof fn reserved_words_are_recognised(k: Keyword, text: Seq<char>)
    ensures
        keyword_of(spelling(k)) == Some(k),
        keyword_of(text) == Some(k) <==> text == spelling(k),
{
    reveal_strlit("fn");
    reveal_strlit("return");
    reveal_strlit("val");
    reveal_strlit("if");
    reveal_strlit("elsif");
    reveal_strlit("else");
    assert("fn"@.len() == 2 && "return"@.len() == 6 && "val"@.len() == 3);
    assert("if"@.len() == 2 && "elsif"@.len() == 5 && "else"@.len() == 4);
    assert("if"@[0] != "fn"@[0]);
}

/// Keywords come first: a word that spells a reserved word is that keyword,
/// and a word that is an identifier spells none.
pub proof fn keywords_take_precedence(text: Seq<char>)
    ensures
        keyword_of(text) matches Some(k) ==> word_token(text) == TokenView::Keyword(k),
        word_token(text) is Identifier ==> word_token(text) == TokenView::Identifier(text)
            && keyword_of(text) is None,
{
}

/// A token read from a block is never an identifier that spells a reserved
/// word.
pub proof fn no_token_is_a_reserved_identifier(s: Seq<ClassifiedChar>, pos: nat)
    ensures
        token_at(s, pos) matches Ok((TokenView::Identifier(name), _)) ==> keyword_of(name) is None,
{
}

/// Among the tokens of a block there is no identifier that spells a
/// reserved word.
pub proof fn no_reserved_identifier_in_block(s: Seq<ClassifiedChar>, pos: nat)
    ensures
        block_tokens(s, pos) matches Ok(tokens) ==> forall|i: int|
            0 <= i < tokens.len() ==> (#[trigger] tokens[i] matches TokenView::Identifier(name)
                ==> keyword_of(name) is None),
    decreases s.len() - pos,
{
    if pos < s.len() {
        match token_at(s, pos) {
            Ok((token, n)) => {
                lemma_token_at_bounds(s, pos);
                no_token_is_a_reserved_identifier(s, pos);
                no_reserved_identifier_in_block(s, pos + n);
            },
            Err(_) => {},
        }
    }
}

/// Among the tokens of the blocks from the `i`-th on there is no identifier
/// that spells a reserved word.
pub proof fn no_reserved_identifier_in_blocks(bs: Seq<Seq<ClassifiedChar>>, i: nat)
    ensures
        blocks_tokens(bs, i) matches Ok(tokens) ==> forall|j: int|
            0 <= j < tokens.len() ==> (#[trigger] tokens[j] matches TokenView::Identifier(name)
                ==> keyword_of(name) is None),
    decreases bs.len() - i,
{
    if i < bs.len() {
        no_reserved_identifier_in_block(bs[i as int], 0);
        no_reserved_identifier_in_blocks(bs, i + 1);
    }
}

/// Keyword precedence, for whole texts: the tokenizer never gives an
/// identifier that spells a reserved word.
pub proof fn no_reserved_identifier_in_text(s: Seq<ClassifiedChar>)
    ensures
        lexed(s) matches Ok(tokens) ==> forall|j: int|
            0 <= j < tokens.len() ==> (#[trigger] tokens[j] matches TokenView::Identifier(name)
                ==> keyword_of(name) is None),
{
    no_reserved_identifier_in_blocks(blocks(s), 0);
}

/// A run that starts where every character up to the end of the text is of
/// its class goes to the end.
pub proof fn run_to_the_end(s: Seq<ClassifiedChar>, from: nat, kind: CharKind)
    requires
        from <= s.len(),
        forall|i: int| from <= i < s.len() ==> has_kind(#[trigger] s[i], kind),
    ensures
        from + run_length(s, from, kind) == s.len(),
{
    lemma_run_length(s, from, kind);
}

/// Keyword precedence, for whole blocks: a block that is one word and
/// spells the reserved word `k` has the keyword `k` as its only token.
pub proof fn reserved_word_is_a_keyword(s: Seq<ClassifiedChar>, k: Keyword)
    requires
        chars_of(s) == spelling(k),
        s.len() > 0,
        identifier_start(s[0]),
        forall|i: int| 1 <= i < s.len() ==> identifier_part(#[trigger] s[i]),
    ensures
        block_tokens(s, 0) == Ok::<Seq<TokenView>, (nat, LexErrorKind)>(
            seq![TokenView::Keyword(k)],
        ),
{
    reserved_words_are_recognised(k, chars_of(s));
    run_to_the_end(s, 1, CharKind::IdentifierPart);
    assert(s.subrange(0, s.len() as int) =~= s);
    assert(token_at(s, 0) == Ok::<(TokenView, nat), LexErrorKind>(
        (TokenView::Keyword(k), s.len()),
    ));
    assert(block_tokens(s, s.len()) == Ok::<Seq<TokenView>, (nat, LexErrorKind)>(Seq::empty()));
    assert(seq![TokenView::Keyword(k)] + Seq::<TokenView>::empty() =~= seq![TokenView::Keyword(k)]);
}

/// A number that fits in 31 bits is its own constant.
pub proof fn small_numbers_are_kept(n: int)
    requires
        0 <= n < 0x8000_0000,
    ensures
        wrap_i32(n) == n,
{
}

/// A block is not empty and holds no whitespace.
pub proof fn blocks_are_solid(s: Seq<ClassifiedChar>, pos: nat)
    ensures
        forall|i: int|
            0 <= i < blocks_from(s, pos).len() ==> (#[trigger] blocks_from(s, pos)[i]).len() > 0,
        forall|i: int, j: int|
            0 <= i < blocks_from(s, pos).len() && 0 <= j < blocks_from(s, pos)[i].len()
                ==> !(#[trigger] blocks_from(s, pos)[i][j]).whitespace,
    decreases s.len() - pos,
{
    let start = pos + run_length(s, pos, CharKind::Blank);
    lemma_run_length(s, pos, CharKind::Blank);
    if start < s.len() {
        let end = start + 1 + run_length(s, start + 1, CharKind::Solid);
        lemma_run_length(s, start + 1, CharKind::Solid);
        blocks_are_solid(s, end);
        let first = s.subrange(start as int, end as int);
        let rest = blocks_from(s, end);
        assert(blocks_from(s, pos) == seq![first] + rest);
        assert forall|i: int, j: int|
            0 <= i < blocks_from(s, pos).len() && 0 <= j < blocks_from(s, pos)[i].len()
                implies !(#[trigger] blocks_from(s, pos)[i][j]).whitespace by {
            if i == 0 {
                assert(first[j] == s[start + j]);
            } else {
                assert(blocks_from(s, pos)[i] == rest[i - 1]);
            }
        }
        assert forall|i: int| 0 <= i < blocks_from(s, pos).len() implies (#[trigger] blocks_from(
            s,
            pos,
        )[i]).len() > 0 by {
            if i > 0 {
                assert(blocks_from(s, pos)[i] == rest[i - 1]);
            }
        }
    }
}

/// Where a block does not consist of tokens, the failure lies within the
/// block, and is not that the block has ended.
pub proof fn block_failure_is_within(s: Seq<ClassifiedChar>, pos: nat)
    ensures
        block_tokens(s, pos) matches Err((offset, kind)) ==> pos <= offset < s.len() && kind
            != LexErrorKind::EndOfBlock && token_at(s, offset) == Err::<
            (TokenView, nat),
            LexErrorKind,
        >(kind),
    decreases s.len() - pos,
{
    if pos < s.len() {
        match token_at(s, pos) {
            Ok((_, n)) => {
                lemma_token_at_bounds(s, pos);
                block_failure_is_within(s, pos + n);
            },
            Err(_) => {},
        }
    }
}

/// Where the blocks from the `i`-th on do not all consist of tokens, the
/// failure names the first block that does not, with its text, and lies
/// within it.
pub proof fn failure_names_its_block(bs: Seq<Seq<ClassifiedChar>>, i: nat)
    ensures
        blocks_tokens(bs, i) matches Err(e) ==> i <= e.block < bs.len() && e.text == chars_of(
            bs[e.block as int],
        ) && e.offset < e.text.len() && e.kind != LexErrorKind::EndOfBlock && block_tokens(
            bs[e.block as int],
            0,
        ) == Err::<Seq<TokenView>, (nat, LexErrorKind)>((e.offset, e.kind)) && forall|j: int|
            i <= j < e.block ==> (#[trigger] block_tokens(bs[j], 0)) is Ok,
    decreases bs.len() - i,
{
    if i < bs.len() {
        block_failure_is_within(bs[i as int], 0);
        failure_names_its_block(bs, i + 1);
    }
}

/// A failure of the tokenizer names the first block of the text that does
/// not consist of tokens, with its text, and lies within it.
pub proof fn failure_names_first_bad_block(s: Seq<ClassifiedChar>)
    ensures
        lexed(s) matches Err(e) ==> e.block < blocks(s).len() && e.text == chars_of(
            blocks(s)[e.block as int],
        ) && e.offset < e.text.len() && e.kind != LexErrorKind::EndOfBlock && forall|j: int|
            0 <= j < e.block ==> (#[trigger] block_tokens(blocks(s)[j], 0)) is Ok,
{
    failure_names_its_block(blocks(s), 0);
}

} // verus!
