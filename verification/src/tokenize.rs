//! The tokenizer: from source text to a flat sequence of tokens.

use vstd::prelude::*;
use vstd::slice::slice_subrange;
use vstd::arithmetic::div_mod::{lemma_add_mod_noop, lemma_mul_mod_noop_right};
use crate::unicode::{ClassifiedChar, chars_of, classified_text, classify, text_of};
use crate::lexis::{
    CharKind, identifier_start, identifier_part, decimal_digit, has_kind, run_length,
    keyword_of, punctuator_of, digit_value, decimal_value, wrap_i32, literal_at,
    token_at, lemma_token_at_bounds, block_tokens, blocks_from, blocks, blocks_tokens, lexed,
};

verus! {

/// The reserved words of the language.
#[derive(Debug, Clone, Copy, PartialEq, Eq, Structural)]
pub enum Keyword {
    FN,
    RETURN,
    VAL,
    IF,
    ELSIF,
    ELSE,
}

/// The single-character symbols of the language.
#[derive(Debug, Clone, Copy, PartialEq, Eq, Structural)]
pub enum Punctuator {
    BraceLeft,
    BraceRight,
    ParenthesisLeft,
    ParenthesisRight,
    BracketLeft,
    BracketRight,
    Comma,
    Plus,
    Minus,
    Star,
    Slash,
    Percent,
    Equal,
    SemiColon,
    LessThan,
    Greater,
}

/// The smallest lexical unit.
#[derive(Debug, PartialEq)]
pub enum Token {
    Keyword(Keyword),
    Identifier(String),
    Constant(i32),
    Punctuator(Punctuator),
}

/// A token as a mathematical value: an identifier is the sequence of its
/// characters.
pub enum TokenView {
    Keyword(Keyword),
    Identifier(Seq<char>),
    Constant(i32),
    Punctuator(Punctuator),
}

impl View for Token {
    type V = TokenView;

    open spec fn view(&self) -> TokenView {
        match self {
            Token::Keyword(k) => TokenView::Keyword(*k),
            Token::Identifier(name) => TokenView::Identifier(name@),
            Token::Constant(value) => TokenView::Constant(*value),
            Token::Punctuator(p) => TokenView::Punctuator(*p),
        }
    }
}

impl Clone for Token {
    fn clone(&self) -> (r: Self)
        ensures
            r@ == self@,
    {
        match self {
            Token::Keyword(k) => Token::Keyword(*k),
            Token::Identifier(name) => Token::Identifier(name.clone()),
            Token::Constant(value) => Token::Constant(*value),
            Token::Punctuator(p) => Token::Punctuator(*p),
        }
    }
}

/// The tokens of `tokens` as mathematical values.
pub open spec fn token_views(tokens: Seq<Token>) -> Seq<TokenView> {
    Seq::new(tokens.len(), |i: int| tokens[i]@)
}

/// Why a piece of text is not a token.
#[derive(Debug, Clone, Copy, PartialEq, Eq, Structural)]
pub enum LexErrorKind {
    /// The character starts no token.
    UnrecognizedCharacter,
    /// A quote is followed by something that is no character literal.
    MalformedLiteral,
    /// The text ends inside a character literal.
    UnterminatedLiteral,
    /// There is no character left to read.
    EndOfBlock,
}

/// A failure of the tokenizer, with the block of text that it stopped at.
#[derive(Debug, PartialEq)]
pub struct LexError {
    /// What went wrong.
    pub kind: LexErrorKind,
    /// Index of the failing block among the blocks of the text, from 0.
    pub block: usize,
    /// Offset, in characters, of the failing token within its block.
    pub offset: usize,
    /// The failing block.
    pub text: String,
}

/// A failure of the tokenizer as a mathematical value.
pub struct LexErrorView {
    pub kind: LexErrorKind,
    pub block: nat,
    pub offset: nat,
    pub text: Seq<char>,
}

impl View for LexError {
    type V = LexErrorView;

    open spec fn view(&self) -> LexErrorView {
        LexErrorView {
            kind: self.kind,
            block: self.block as nat,
            offset: self.offset as nat,
            text: self.text@,
        }
    }
}

impl Clone for LexError {
    fn clone(&self) -> (r: Self)
        ensures
            r@ == self@,
    {
        LexError {
            kind: self.kind,
            block: self.block,
            offset: self.offset,
            text: self.text.clone(),
        }
    }
}

/// The outcome of tokenizing as a mathematical value.
pub open spec fn outcome_view(r: Result<Vec<Token>, LexError>) -> Result<Seq<TokenView>, LexErrorView> {
    match r {
        Ok(tokens) => Ok(token_views(tokens@)),
        Err(e) => Err(e@),
    }
}

/// The outcome of reading one token as a mathematical value.
pub open spec fn token_outcome_view(r: Result<(Token, usize), LexErrorKind>) -> Result<
    (TokenView, nat),
    LexErrorKind,
> {
    match r {
        Ok((token, n)) => Ok((token@, n as nat)),
        Err(kind) => Err(kind),
    }
}

/// Whether `c` can start an identifier or a keyword.
pub fn is_identifier_nondigit(c: &ClassifiedChar) -> (r: bool)
    ensures
        r == identifier_start(*c),
{
    c.alphabetic || c.ch == '_'
}

/// Whether `c` can continue an identifier or a keyword.
pub fn is_identifier_chars(c: &ClassifiedChar) -> (r: bool)
    ensures
        r == identifier_part(*c),
{
    c.alphanumeric || c.ch == '_'
}

/// Whether `c` is one of the digits `0` to `9`.
pub fn is_decimal_digit(c: &ClassifiedChar) -> (r: bool)
    ensures
        r == decimal_digit(*c),
{
    c.ch >= '0' && c.ch <= '9'
}

/// Whether `c` belongs to the class `kind`.
pub fn is_of_kind(c: &ClassifiedChar, kind: CharKind) -> (r: bool)
    ensures
        r == has_kind(*c, kind),
{
    match kind {
        CharKind::IdentifierPart => is_identifier_chars(c),
        CharKind::DecimalDigit => is_decimal_digit(c),
        CharKind::Blank => c.whitespace,
        CharKind::Solid => !c.whitespace,
    }
}

/// The end of the longest run of characters of class `kind` that starts at
/// `from`.
pub fn run_end(s: &[ClassifiedChar], from: usize, kind: CharKind) -> (end: usize)
    ensures
        end == from + run_length(s@, from as nat, kind),
        from <= s.len() ==> end <= s.len(),
{
    let mut end = from;
    while end < s.len() && is_of_kind(&s[end], kind)
        invariant
            from <= end,
            from <= s.len() ==> end <= s.len(),
            from + run_length(s@, from as nat, kind) == end + run_length(s@, end as nat, kind),
        decreases s.len() - end,
    {
        end += 1;
    }
    end
}

/// Whether `word` spells `text`.
fn spells(word: &[ClassifiedChar], text: &str) -> (r: bool)
    ensures
        r == (chars_of(word@) == text@),
{
    let n = text.unicode_len();
    if word.len() != n {
        return false;
    }
    let mut i: usize = 0;
    while i < n
        invariant
            i <= n,
            n == word.len(),
            n == text@.len(),
            forall|j: int| 0 <= j < i ==> word@[j].ch == text@[j],
        decreases n - i,
    {
        if word[i].ch != text.get_char(i) {
            assert(chars_of(word@)[i as int] != text@[i as int]);
            return false;
        }
        i += 1;
    }
    assert(chars_of(word@) =~= text@);
    true
}

/// The reserved word that `word` spells, if any.
pub fn make_keyword(word: &[ClassifiedChar]) -> (r: Option<Keyword>)
    ensures
        r == keyword_of(chars_of(word@)),
{
    if spells(word, "fn") {
        Some(Keyword::FN)
    } else if spells(word, "return") {
        Some(Keyword::RETURN)
    } else if spells(word, "val") {
        Some(Keyword::VAL)
    } else if spells(word, "if") {
        Some(Keyword::IF)
    } else if spells(word, "elsif") {
        Some(Keyword::ELSIF)
    } else if spells(word, "else") {
        Some(Keyword::ELSE)
    } else {
        None
    }
}

/// The symbol that `punctuator` stands for, if any.
pub fn make_punctuator(punctuator: char) -> (r: Option<Punctuator>)
    ensures
        r == punctuator_of(punctuator),
{
    match punctuator {
        '(' => Some(Punctuator::ParenthesisLeft),
        ')' => Some(Punctuator::ParenthesisRight),
        '[' => Some(Punctuator::BracketLeft),
        ']' => Some(Punctuator::BracketRight),
        '{' => Some(Punctuator::BraceLeft),
        '}' => Some(Punctuator::BraceRight),
        ',' => Some(Punctuator::Comma),
        '+' => Some(Punctuator::Plus),
        '-' => Some(Punctuator::Minus),
        '*' => Some(Punctuator::Star),
        '/' => Some(Punctuator::Slash),
        '%' => Some(Punctuator::Percent),
        '=' => Some(Punctuator::Equal),
        ';' => Some(Punctuator::SemiColon),
        '<' => Some(Punctuator::LessThan),
        '>' => Some(Punctuator::Greater),
        _ => None,
    }
}

/// The value of the decimal digit `c`; 0 for any other character.
pub fn digit_of(c: &ClassifiedChar) -> (r: u64)
    ensures
        r == digit_value(*c),
        r <= 9,
{
    if is_decimal_digit(c) {
        (c.ch as u32 - '0' as u32) as u64
    } else {
        0
    }
}

/// The constant that the decimal digits `digits` write. A number that does
/// not fit in 32 bits wraps around, as in two's complement arithmetic.
pub fn decimal_constant(digits: &[ClassifiedChar]) -> (r: i32)
    ensures
        r == wrap_i32(decimal_value(digits@) as int),
{
    let mut acc: u64 = 0;
    let mut i: usize = 0;
    while i < digits.len()
        invariant
            i <= digits.len(),
            acc == decimal_value(digits@.take(i as int)) % 0x1_0000_0000,
        decreases digits.len() - i,
    {
        let d = digit_of(&digits[i]);
        proof {
            let before = digits@.take(i as int);
            let now = digits@.take(i + 1);
            assert(now.drop_last() =~= before);
            assert(now.last() == digits@[i as int]);
            let v = decimal_value(before) as int;
            assert(decimal_value(now) == 10 * v + d);
            lemma_mul_mod_noop_right(10, v, 0x1_0000_0000);
            lemma_add_mod_noop(10 * v, d as int, 0x1_0000_0000);
            lemma_add_mod_noop(10 * (v % 0x1_0000_0000), d as int, 0x1_0000_0000);
        }
        acc = (acc * 10 + d) % 0x1_0000_0000;
        i += 1;
    }
    proof {
        assert(digits@.take(i as int) =~= digits@);
    }
    if acc < 0x8000_0000 {
        acc as i32
    } else {
        (acc as i64 - 0x1_0000_0000) as i32
    }
}

/// Reads the character literal that starts with the quote at `pos`.
pub fn character_literal(block: &[ClassifiedChar], pos: usize) -> (r: Result<
    (Token, usize),
    LexErrorKind,
>)
    ensures
        token_outcome_view(r) == literal_at(block@, pos as nat),
{
    let len = block.len();
    if len < 2 || pos >= len - 1 {
        return Err(LexErrorKind::UnterminatedLiteral);
    }
    let first = block[pos + 1].ch;
    if first == '\\' {
        if pos >= len - 2 {
            return Err(LexErrorKind::UnterminatedLiteral);
        }
        let escaped = block[pos + 2].ch;
        if escaped != '\\' && escaped != '\'' {
            return Err(LexErrorKind::MalformedLiteral);
        }
        if pos >= len - 3 {
            return Err(LexErrorKind::UnterminatedLiteral);
        }
        if block[pos + 3].ch != '\'' {
            return Err(LexErrorKind::MalformedLiteral);
        }
        Ok((Token::Constant(escaped as i32), 4))
    } else {
        if pos >= len - 2 {
            return Err(LexErrorKind::UnterminatedLiteral);
        }
        if block[pos + 2].ch != '\'' {
            return Err(LexErrorKind::MalformedLiteral);
        }
        Ok((Token::Constant(first as i32), 3))
    }
}

/// Reads the token that starts at `pos` in `block` and says how many
/// characters it takes.
pub fn tokenize_impl(block: &[ClassifiedChar], pos: usize) -> (r: Result<
    (Token, usize),
    LexErrorKind,
>)
    ensures
        token_outcome_view(r) == token_at(block@, pos as nat),
        r matches Ok((_, n)) ==> 1 <= n && pos + n <= block.len(),
{
    if pos >= block.len() {
        return Err(LexErrorKind::EndOfBlock);
    }
    proof {
        lemma_token_at_bounds(block@, pos as nat);
    }
    let c = block[pos];
    if is_identifier_nondigit(&c) {
        let end = run_end(block, pos + 1, CharKind::IdentifierPart);
        let word = slice_subrange(block, pos, end);
        match make_keyword(word) {
            Some(keyword) => Ok((Token::Keyword(keyword), end - pos)),
            None => Ok((Token::Identifier(text_of(word)), end - pos)),
        }
    } else if is_decimal_digit(&c) {
        let end = run_end(block, pos + 1, CharKind::DecimalDigit);
        let imm = decimal_constant(slice_subrange(block, pos, end));
        Ok((Token::Constant(imm), end - pos))
    } else if c.ch == '\'' {
        character_literal(block, pos)
    } else {
        match make_punctuator(c.ch) {
            Some(punc) => Ok((Token::Punctuator(punc), 1)),
            None => Err(LexErrorKind::UnrecognizedCharacter),
        }
    }
}

/// The outcome of tokenizing one block as a mathematical value.
pub open spec fn block_outcome_view(r: Result<Vec<Token>, (usize, LexErrorKind)>) -> Result<
    Seq<TokenView>,
    (nat, LexErrorKind),
> {
    match r {
        Ok(tokens) => Ok(token_views(tokens@)),
        Err((offset, kind)) => Err((offset as nat, kind)),
    }
}

/// The tokens `done`, followed by what `rest` adds to them.
pub open spec fn followed_by<E>(done: Seq<TokenView>, rest: Result<Seq<TokenView>, E>) -> Result<
    Seq<TokenView>,
    E,
> {
    match rest {
        Ok(more) => Ok(done + more),
        Err(e) => Err(e),
    }
}

/// Reads the tokens of one block, from its first character to its last. On
/// failure it gives the offset of the piece that is no token, and why.
pub fn tokenize_loop(block: &[ClassifiedChar]) -> (r: Result<Vec<Token>, (usize, LexErrorKind)>)
    ensures
        block_outcome_view(r) == block_tokens(block@, 0),
{
    let mut tokens: Vec<Token> = Vec::new();
    let mut pos: usize = 0;
    while pos < block.len()
        invariant
            pos <= block.len(),
            block_tokens(block@, 0) == followed_by(
                token_views(tokens@),
                block_tokens(block@, pos as nat),
            ),
        decreases block.len() - pos,
    {
        match tokenize_impl(block, pos) {
            Ok((token, seek)) => {
                proof {
                    let before = token_views(tokens@);
                    let after = token_views(tokens@.push(token));
                    assert(after =~= before + seq![token@]);
                    match block_tokens(block@, (pos + seek) as nat) {
                        Ok(rest) => {
                            assert(before + (seq![token@] + rest) =~= after + rest);
                        },
                        Err(e) => {},
                    }
                }
                tokens.push(token);
                pos += seek;
            },
            Err(kind) => {
                return Err((pos, kind));
            },
        }
    }
    proof {
        assert(token_views(tokens@) + Seq::<TokenView>::empty() =~= token_views(tokens@));
    }
    Ok(tokens)
}

/// Tokenizes a text whose characters come with their Unicode properties:
/// splits it at whitespace into blocks and reads the tokens of each block.
/// The first block that does not consist of tokens fails the whole text.
pub fn tokenize_classified(chars: &[ClassifiedChar]) -> (r: Result<Vec<Token>, LexError>)
    ensures
        outcome_view(r) == lexed(chars@),
{
    let ghost all = blocks(chars@);
    let mut tokens: Vec<Token> = Vec::new();
    let mut pos: usize = 0;
    let mut index: usize = 0;
    proof {
        assert(all.skip(0) =~= all);
        assert(token_views(tokens@) =~= Seq::<TokenView>::empty());
        match blocks_tokens(all, 0) {
            Ok(rest) => {
                assert(Seq::<TokenView>::empty() + rest =~= rest);
            },
            Err(e) => {},
        }
    }
    loop
        invariant
            all == blocks(chars@),
            index <= pos <= chars.len(),
            index <= all.len(),
            all.skip(index as int) == blocks_from(chars@, pos as nat),
            lexed(chars@) == followed_by(token_views(tokens@), blocks_tokens(all, index as nat)),
        ensures
            outcome_view(Ok::<Vec<Token>, LexError>(tokens)) == lexed(chars@),
        decreases chars.len() - pos,
    {
        let start = run_end(chars, pos, CharKind::Blank);
        if start >= chars.len() {
            proof {
                assert(all.skip(index as int).len() == 0);
                assert(token_views(tokens@) + Seq::<TokenView>::empty() =~= token_views(tokens@));
            }
            break ;
        }
        let end = run_end(chars, start + 1, CharKind::Solid);
        let block = slice_subrange(chars, start, end);
        proof {
            let rest = blocks_from(chars@, end as nat);
            assert(all.skip(index as int) == seq![block@] + rest);
            assert(all.skip(index as int)[0] == block@);
            assert(all[index as int] == block@);
            assert(all.skip(index + 1) =~= all.skip(index as int).skip(1));
            assert((seq![block@] + rest).skip(1) =~= rest);
        }
        match tokenize_loop(block) {
            Ok(mut more) => {
                proof {
                    let before = token_views(tokens@);
                    let added = token_views(more@);
                    assert(token_views(tokens@ + more@) =~= before + added);
                    match blocks_tokens(all, (index + 1) as nat) {
                        Ok(rest) => {
                            assert(before + (added + rest) =~= (before + added) + rest);
                        },
                        Err(e) => {},
                    }
                }
                tokens.append(&mut more);
            },
            Err((offset, kind)) => {
                return Err(LexError { kind, block: index, offset, text: text_of(block) });
            },
        }
        index += 1;
        pos = end;
    }
    Ok(tokens)
}

/// Tokenizes source text. The Unicode properties of its characters are
/// looked up first; the tokens are those of the classified text.
pub fn tokenize(code: &str) -> (r: Result<Vec<Token>, LexError>)
    ensures
        outcome_view(r) == lexed(classified_text(code@)),
{
    let chars = classify(code);
    tokenize_classified(chars.as_slice())
}

} // verus!
