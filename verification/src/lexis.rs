//! What the tokens of a text are: the lexical rules of the language as
//! mathematical functions on sequences of classified characters.

use vstd::prelude::*;
use crate::unicode::{ClassifiedChar, chars_of};
use crate::tokenize::{Keyword, Punctuator, TokenView, LexErrorKind, LexErrorView};

verus! {

/// An identifier or keyword starts with an alphabetic character or `_`.
pub open spec fn identifier_start(c: ClassifiedChar) -> bool {
    c.alphabetic || c.ch == '_'
}

/// An identifier or keyword goes on with alphanumeric characters and `_`.
pub open spec fn identifier_part(c: ClassifiedChar) -> bool {
    c.alphanumeric || c.ch == '_'
}

/// The decimal digits `0` to `9`.
pub open spec fn decimal_digit(c: ClassifiedChar) -> bool {
    '0' <= c.ch <= '9'
}

/// The classes of characters that the tokenizer reads in runs.
#[derive(Debug, Clone, Copy, PartialEq, Eq, Structural)]
pub enum CharKind {
    /// Characters that continue an identifier.
    IdentifierPart,
    /// Decimal digits.
    DecimalDigit,
    /// Whitespace, which separates blocks.
    Blank,
    /// Anything but whitespace.
    Solid,
}

/// Whether `c` belongs to the class `kind`.
pub open spec fn has_kind(c: ClassifiedChar, kind: CharKind) -> bool {
    match kind {
        CharKind::IdentifierPart => identifier_part(c),
        CharKind::DecimalDigit => decimal_digit(c),
        CharKind::Blank => c.whitespace,
        CharKind::Solid => !c.whitespace,
    }
}

/// Length of the longest run of characters of class `kind` that starts at
/// `from`.
pub open spec fn run_length(s: Seq<ClassifiedChar>, from: nat, kind: CharKind) -> nat
    decreases s.len() - from,
{
    if from < s.len() && has_kind(s[from as int], kind) {
        1 + run_length(s, from + 1, kind)
    } else {
        0
    }
}

/// A run ends within the text, holds only characters of its class, and is
/// followed by none.
pub proof fn lemma_run_length(s: Seq<ClassifiedChar>, from: nat, kind: CharKind)
    ensures
        from <= s.len() ==> from + run_length(s, from, kind) <= s.len(),
        from > s.len() ==> run_length(s, from, kind) == 0,
        forall|i: int|
            from <= i < from + run_length(s, from, kind) ==> has_kind(#[trigger] s[i], kind),
        from + run_length(s, from, kind) < s.len() ==> !has_kind(
            s[(from + run_length(s, from, kind)) as int],
            kind,
        ),
    decreases s.len() - from,
{
    if from < s.len() && has_kind(s[from as int], kind) {
        lemma_run_length(s, from + 1, kind);
    }
}

/// The reserved word that `text` spells, if any.
pub open spec fn keyword_of(text: Seq<char>) -> Option<Keyword> {
    if text == "fn"@ {
        Some(Keyword::FN)
    } else if text == "return"@ {
        Some(Keyword::RETURN)
    } else if text == "val"@ {
        Some(Keyword::VAL)
    } else if text == "if"@ {
        Some(Keyword::IF)
    } else if text == "elsif"@ {
        Some(Keyword::ELSIF)
    } else if text == "else"@ {
        Some(Keyword::ELSE)
    } else {
        None
    }
}

/// The token that a word stands for: a keyword where the word is reserved,
/// an identifier otherwise.
pub open spec fn word_token(text: Seq<char>) -> TokenView {
    match keyword_of(text) {
        Some(k) => TokenView::Keyword(k),
        None => TokenView::Identifier(text),
    }
}

/// The symbol that `c` stands for, if any.
pub open spec fn punctuator_of(c: char) -> Option<Punctuator> {
    if c == '(' {
        Some(Punctuator::ParenthesisLeft)
    } else if c == ')' {
        Some(Punctuator::ParenthesisRight)
    } else if c == '[' {
        Some(Punctuator::BracketLeft)
    } else if c == ']' {
        Some(Punctuator::BracketRight)
    } else if c == '{' {
        Some(Punctuator::BraceLeft)
    } else if c == '}' {
        Some(Punctuator::BraceRight)
    } else if c == ',' {
        Some(Punctuator::Comma)
    } else if c == '+' {
        Some(Punctuator::Plus)
    } else if c == '-' {
        Some(Punctuator::Minus)
    } else if c == '*' {
        Some(Punctuator::Star)
    } else if c == '/' {
        Some(Punctuator::Slash)
    } else if c == '%' {
        Some(Punctuator::Percent)
    } else if c == '=' {
        Some(Punctuator::Equal)
    } else if c == ';' {
        Some(Punctuator::SemiColon)
    } else if c == '<' {
        Some(Punctuator::LessThan)
    } else if c == '>' {
        Some(Punctuator::Greater)
    } else {
        None
    }
}

/// The value of a decimal digit; 0 for any other character.
pub open spec fn digit_value(c: ClassifiedChar) -> nat {
    if decimal_digit(c) {
        (c.ch as int - '0' as int) as nat
    } else {
        0
    }
}

/// The number that a sequence of decimal digits writes, however large.
pub open spec fn decimal_value(digits: Seq<ClassifiedChar>) -> nat
    decreases digits.len(),
{
    if digits.len() == 0 {
        0
    } else {
        10 * decimal_value(digits.drop_last()) + digit_value(digits.last())
    }
}

/// The 32-bit signed integer that is congruent to `n` modulo 2^32: what
/// two's complement arithmetic keeps of a number that is too large.
pub open spec fn wrap_i32(n: int) -> i32 {
    let m = n % 0x1_0000_0000;
    if m < 0x8000_0000 {
        m as i32
    } else {
        (m - 0x1_0000_0000) as i32
    }
}

/// The character literal that starts with the quote at `pos`: `'x'` for any
/// single character `x` but the backslash, `'\\'` or `'\''`.
pub open spec fn literal_at(s: Seq<ClassifiedChar>, pos: nat) -> Result<
    (TokenView, nat),
    LexErrorKind,
> {
    if pos + 1 >= s.len() {
        Err(LexErrorKind::UnterminatedLiteral)
    } else if s[(pos + 1) as int].ch == '\\' {
        if pos + 2 >= s.len() {
            Err(LexErrorKind::UnterminatedLiteral)
        } else if s[(pos + 2) as int].ch != '\\' && s[(pos + 2) as int].ch != '\'' {
            Err(LexErrorKind::MalformedLiteral)
        } else if pos + 3 >= s.len() {
            Err(LexErrorKind::UnterminatedLiteral)
        } else if s[(pos + 3) as int].ch != '\'' {
            Err(LexErrorKind::MalformedLiteral)
        } else {
            Ok((TokenView::Constant(s[(pos + 2) as int].ch as i32), 4))
        }
    } else if pos + 2 >= s.len() {
        Err(LexErrorKind::UnterminatedLiteral)
    } else if s[(pos + 2) as int].ch != '\'' {
        Err(LexErrorKind::MalformedLiteral)
    } else {
        Ok((TokenView::Constant(s[(pos + 1) as int].ch as i32), 3))
    }
}

/// The token that starts at `pos` in the block `s`, with the number of
/// characters it takes: the longest word, the longest number, a character
/// literal or a single symbol, tried in this order.
pub open spec fn token_at(s: Seq<ClassifiedChar>, pos: nat) -> Result<
    (TokenView, nat),
    LexErrorKind,
> {
    if pos >= s.len() {
        Err(LexErrorKind::EndOfBlock)
    } else if identifier_start(s[pos as int]) {
        let n = 1 + run_length(s, pos + 1, CharKind::IdentifierPart);
        Ok((word_token(chars_of(s.subrange(pos as int, (pos + n) as int))), n))
    } else if decimal_digit(s[pos as int]) {
        let n = 1 + run_length(s, pos + 1, CharKind::DecimalDigit);
        Ok((TokenView::Constant(wrap_i32(decimal_value(s.subrange(pos as int, (pos + n) as int)) as int)), n))
    } else if s[pos as int].ch == '\'' {
        literal_at(s, pos)
    } else {
        match punctuator_of(s[pos as int].ch) {
            Some(p) => Ok((TokenView::Punctuator(p), 1)),
            None => Err(LexErrorKind::UnrecognizedCharacter),
        }
    }
}

/// A token takes at least one character and ends within its block.
pub proof fn lemma_token_at_bounds(s: Seq<ClassifiedChar>, pos: nat)
    ensures
        token_at(s, pos) matches Ok((_, n)) ==> 1 <= n && pos + n <= s.len(),
{
    lemma_run_length(s, pos + 1, CharKind::IdentifierPart);
    lemma_run_length(s, pos + 1, CharKind::DecimalDigit);
}

/// The tokens of the block `s` from `pos` on, or the offset and the kind of
/// the first piece that is no token.
pub open spec fn block_tokens(s: Seq<ClassifiedChar>, pos: nat) -> Result<
    Seq<TokenView>,
    (nat, LexErrorKind),
>
    decreases s.len() - pos,
{
    if pos >= s.len() {
        Ok(Seq::empty())
    } else {
        match token_at(s, pos) {
            Err(kind) => Err((pos, kind)),
            Ok((token, n)) => {
                proof {
                    lemma_token_at_bounds(s, pos);
                }
                match block_tokens(s, pos + n) {
                    Ok(rest) => Ok(seq![token] + rest),
                    Err(e) => Err(e),
                }
            },
        }
    }
}

/// The blocks of `s` from `pos` on: the longest runs of characters that are
/// no whitespace, in the order of the text.
pub open spec fn blocks_from(s: Seq<ClassifiedChar>, pos: nat) -> Seq<Seq<ClassifiedChar>>
    decreases s.len() - pos,
{
    let start = pos + run_length(s, pos, CharKind::Blank);
    if start >= s.len() {
        Seq::empty()
    } else {
        let end = start + 1 + run_length(s, start + 1, CharKind::Solid);
        proof {
            lemma_run_length(s, start + 1, CharKind::Solid);
        }
        seq![s.subrange(start as int, end as int)] + blocks_from(s, end)
    }
}

/// The blocks of a text.
pub open spec fn blocks(s: Seq<ClassifiedChar>) -> Seq<Seq<ClassifiedChar>> {
    blocks_from(s, 0)
}

/// The tokens of the blocks from the `i`-th on, one block after the other,
/// or the failure in the first block that does not consist of tokens.
pub open spec fn blocks_tokens(bs: Seq<Seq<ClassifiedChar>>, i: nat) -> Result<
    Seq<TokenView>,
    LexErrorView,
>
    decreases bs.len() - i,
{
    if i >= bs.len() {
        Ok(Seq::empty())
    } else {
        match block_tokens(bs[i as int], 0) {
            Err((offset, kind)) => Err(
                LexErrorView { kind, block: i, offset, text: chars_of(bs[i as int]) },
            ),
            Ok(tokens) => match blocks_tokens(bs, i + 1) {
                Ok(rest) => Ok(tokens + rest),
                Err(e) => Err(e),
            },
        }
    }
}

/// The tokens of a text: those of its blocks, in order. A text with a block
/// that does not consist of tokens has none.
pub open spec fn lexed(s: Seq<ClassifiedChar>) -> Result<Seq<TokenView>, LexErrorView> {
    blocks_tokens(blocks(s), 0)
}

} // verus!
