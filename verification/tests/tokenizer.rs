use tinylang::tokenize::{
    character_literal, decimal_constant, digit_of, is_decimal_digit, is_identifier_chars,
    is_identifier_nondigit, is_of_kind, make_keyword, make_punctuator, run_end, tokenize,
    tokenize_classified, tokenize_impl, tokenize_loop, Keyword, LexError, LexErrorKind,
    Punctuator, Token,
};
use tinylang::lexis::CharKind;
use tinylang::unicode::{classify, classify_char, text_of, ClassifiedChar};

fn tokens(code: &str) -> Vec<Token> {
    tokenize(code).unwrap()
}

fn failure(code: &str) -> LexError {
    tokenize(code).unwrap_err()
}

fn name(text: &str) -> Token {
    Token::Identifier(text.to_string())
}

#[test]
fn character_literal_is_its_code() {
    assert_eq!(tokens("'a'"), vec![Token::Constant(97)]);
}

#[test]
fn escaped_backslash_literal() {
    assert_eq!(tokens("'\\\\'"), vec![Token::Constant(92)]);
}

#[test]
fn escaped_quote_literal() {
    assert_eq!(tokens("'\\''"), vec![Token::Constant(39)]);
}

#[test]
fn two_characters_between_quotes_fail() {
    let e = failure("'ab'");
    assert_eq!(e.kind, LexErrorKind::MalformedLiteral);
    assert_eq!(e.block, 0);
    assert_eq!(e.offset, 0);
    assert_eq!(e.text, "'ab'");
}

#[test]
fn quote_between_quotes_is_a_literal() {
    assert_eq!(tokens("'''"), vec![Token::Constant(39)]);
}

#[test]
fn character_literal_beyond_ascii() {
    assert_eq!(tokens("'\u{e9}'"), vec![Token::Constant(0xe9)]);
    assert_eq!(tokens("'\u{10ffff}'"), vec![Token::Constant(0x10ffff)]);
}

#[test]
fn unknown_escape_is_malformed() {
    assert_eq!(failure("'\\n'").kind, LexErrorKind::MalformedLiteral);
    assert_eq!(failure("'\\\\x").kind, LexErrorKind::MalformedLiteral);
}

#[test]
fn literal_cut_short_is_unterminated() {
    assert_eq!(failure("'").kind, LexErrorKind::UnterminatedLiteral);
    assert_eq!(failure("'a").kind, LexErrorKind::UnterminatedLiteral);
    assert_eq!(failure("'\\").kind, LexErrorKind::UnterminatedLiteral);
    assert_eq!(failure("'\\'").kind, LexErrorKind::UnterminatedLiteral);
    assert_eq!(failure("''").kind, LexErrorKind::UnterminatedLiteral);
}

#[test]
fn whitespace_splits_a_literal() {
    let e = failure("x ' '");
    assert_eq!(e.kind, LexErrorKind::UnterminatedLiteral);
    assert_eq!(e.block, 1);
    assert_eq!(e.text, "'");
}

#[test]
fn decimal_literal() {
    assert_eq!(tokens("12345"), vec![Token::Constant(12345)]);
}

#[test]
fn decimal_literal_with_leading_zeros() {
    assert_eq!(tokens("007"), vec![Token::Constant(7)]);
    assert_eq!(tokens("0"), vec![Token::Constant(0)]);
}

#[test]
fn decimal_literal_at_the_limit() {
    assert_eq!(tokens("2147483647"), vec![Token::Constant(i32::MAX)]);
}

#[test]
fn decimal_literal_wraps_around() {
    assert_eq!(tokens("2147483648"), vec![Token::Constant(i32::MIN)]);
    assert_eq!(tokens("4294967295"), vec![Token::Constant(-1)]);
    assert_eq!(tokens("4294967296"), vec![Token::Constant(0)]);
    assert_eq!(tokens("4294967297"), vec![Token::Constant(1)]);
    assert_eq!(tokens("99999999999999999999999"), vec![Token::Constant(-159383553)]);
}

#[test]
fn digits_then_letters_are_two_tokens() {
    assert_eq!(tokens("12ab"), vec![Token::Constant(12), name("ab")]);
}

#[test]
fn keywords_and_identifiers() {
    assert_eq!(
        tokens("fn return val if elsif else fnx _if If"),
        vec![
            Token::Keyword(Keyword::FN),
            Token::Keyword(Keyword::RETURN),
            Token::Keyword(Keyword::VAL),
            Token::Keyword(Keyword::IF),
            Token::Keyword(Keyword::ELSIF),
            Token::Keyword(Keyword::ELSE),
            name("fnx"),
            name("_if"),
            name("If"),
        ]
    );
}

#[test]
fn keyword_before_punctuator() {
    assert_eq!(
        tokens("if(else)"),
        vec![
            Token::Keyword(Keyword::IF),
            Token::Punctuator(Punctuator::ParenthesisLeft),
            Token::Keyword(Keyword::ELSE),
            Token::Punctuator(Punctuator::ParenthesisRight),
        ]
    );
}

#[test]
fn identifiers_take_the_longest_word() {
    assert_eq!(tokens("a1_b2 _ __x9"), vec![name("a1_b2"), name("_"), name("__x9")]);
}

#[test]
fn identifiers_beyond_ascii() {
    assert_eq!(tokens("\u{e9}t\u{e9}=1"), vec![
        name("\u{e9}t\u{e9}"),
        Token::Punctuator(Punctuator::Equal),
        Token::Constant(1),
    ]);
    assert_eq!(tokens("x\u{663}"), vec![name("x\u{663}")]);
}

#[test]
fn all_punctuators() {
    let expected = vec![
        Punctuator::BraceLeft,
        Punctuator::BraceRight,
        Punctuator::ParenthesisLeft,
        Punctuator::ParenthesisRight,
        Punctuator::BracketLeft,
        Punctuator::BracketRight,
        Punctuator::Comma,
        Punctuator::Plus,
        Punctuator::Minus,
        Punctuator::Star,
        Punctuator::Slash,
        Punctuator::Percent,
        Punctuator::Equal,
        Punctuator::SemiColon,
        Punctuator::LessThan,
        Punctuator::Greater,
    ];
    let found = tokens("{}()[],+-*/%=;<>");
    assert_eq!(found.len(), 16);
    for (token, p) in found.iter().zip(expected.iter()) {
        assert_eq!(token, &Token::Punctuator(*p));
    }
}

#[test]
fn punctuators_without_whitespace() {
    assert_eq!(
        tokens("a=f(1,b);"),
        vec![
            name("a"),
            Token::Punctuator(Punctuator::Equal),
            name("f"),
            Token::Punctuator(Punctuator::ParenthesisLeft),
            Token::Constant(1),
            Token::Punctuator(Punctuator::Comma),
            name("b"),
            Token::Punctuator(Punctuator::ParenthesisRight),
            Token::Punctuator(Punctuator::SemiColon),
        ]
    );
}

#[test]
fn any_whitespace_separates() {
    let expected = vec![name("a"), name("b"), name("c"), name("d")];
    assert_eq!(tokens("a b\tc\nd"), expected);
    assert_eq!(tokens("  a \r\n b \u{3000} c\u{a0}d  "), expected);
}

#[test]
fn empty_text_has_no_tokens() {
    assert_eq!(tokens(""), vec![]);
    assert_eq!(tokens(" \n\t "), vec![]);
}

#[test]
fn unrecognized_character_fails() {
    let e = failure("a = b @ c");
    assert_eq!(e.kind, LexErrorKind::UnrecognizedCharacter);
    assert_eq!(e.block, 3);
    assert_eq!(e.offset, 0);
    assert_eq!(e.text, "@");
}

#[test]
fn failure_gives_the_offset_in_the_block() {
    let e = failure("ok  x=1#2 more");
    assert_eq!(e.kind, LexErrorKind::UnrecognizedCharacter);
    assert_eq!(e.block, 1);
    assert_eq!(e.offset, 3);
    assert_eq!(e.text, "x=1#2");
}

#[test]
fn first_failing_block_is_reported() {
    let e = failure("a $ b 'x");
    assert_eq!(e.block, 1);
    assert_eq!(e.text, "$");
}

#[test]
fn numeric_characters_beyond_ascii_start_no_token() {
    let e = failure("\u{663}");
    assert_eq!(e.kind, LexErrorKind::UnrecognizedCharacter);
}

#[test]
fn tokenizing_twice_gives_the_same() {
    let text = "fn[1] add(a, b) { c = add(a, b); }";
    assert_eq!(tokenize(text), tokenize(text));
    let bad = "fn[1] add(a, b) { c = 'ab' }";
    assert_eq!(tokenize(bad), tokenize(bad));
    assert!(tokenize(bad).is_err());
}

#[test]
fn properties_of_characters() {
    let a = classify_char('a');
    assert_eq!(a, ClassifiedChar { ch: 'a', alphabetic: true, alphanumeric: true, whitespace: false });
    let seven = classify_char('7');
    assert_eq!(
        seven,
        ClassifiedChar { ch: '7', alphabetic: false, alphanumeric: true, whitespace: false }
    );
    let space = classify_char(' ');
    assert_eq!(
        space,
        ClassifiedChar { ch: ' ', alphabetic: false, alphanumeric: false, whitespace: true }
    );
    let plus = classify_char('+');
    assert_eq!(
        plus,
        ClassifiedChar { ch: '+', alphabetic: false, alphanumeric: false, whitespace: false }
    );
}

#[test]
fn classified_text_keeps_every_character() {
    let chars = classify("a\u{e9} 1");
    let plain: Vec<char> = chars.iter().map(|c| c.ch).collect();
    assert_eq!(plain, vec!['a', '\u{e9}', ' ', '1']);
    assert_eq!(text_of(&chars), "a\u{e9} 1");
    assert_eq!(text_of(&[]), "");
}

#[test]
fn classified_text_decides_the_tokens() {
    let f = ClassifiedChar { ch: 'f', alphabetic: true, alphanumeric: true, whitespace: false };
    let n = ClassifiedChar { ch: 'n', alphabetic: true, alphanumeric: true, whitespace: false };
    let gap = ClassifiedChar { ch: '-', alphabetic: false, alphanumeric: false, whitespace: true };
    let minus = ClassifiedChar { ch: '-', alphabetic: false, alphanumeric: false, whitespace: false };
    assert_eq!(
        tokenize_classified(&[f, n, gap, minus, gap]),
        Ok(vec![Token::Keyword(Keyword::FN), Token::Punctuator(Punctuator::Minus)])
    );
    let odd = ClassifiedChar { ch: '7', alphabetic: true, alphanumeric: false, whitespace: false };
    assert_eq!(tokenize_classified(&[odd, odd]), Ok(vec![name("7"), name("7")]));
}

#[test]
fn runs_of_characters() {
    let chars = classify("ab1 \t x");
    assert_eq!(run_end(&chars, 0, CharKind::IdentifierPart), 3);
    assert_eq!(run_end(&chars, 0, CharKind::Solid), 3);
    assert_eq!(run_end(&chars, 3, CharKind::Blank), 6);
    assert_eq!(run_end(&chars, 2, CharKind::DecimalDigit), 3);
    assert_eq!(run_end(&chars, 0, CharKind::DecimalDigit), 0);
    assert_eq!(run_end(&chars, 6, CharKind::Solid), 7);
    assert_eq!(run_end(&chars, 7, CharKind::Solid), 7);
    assert_eq!(run_end(&chars, 9, CharKind::Solid), 9);
}

#[test]
fn one_token_at_a_time() {
    let chars = classify("val12+x");
    assert_eq!(tokenize_impl(&chars, 0), Ok((name("val12"), 5)));
    assert_eq!(tokenize_impl(&chars, 1), Ok((name("al12"), 4)));
    assert_eq!(tokenize_impl(&chars, 3), Ok((Token::Constant(12), 2)));
    assert_eq!(tokenize_impl(&chars, 5), Ok((Token::Punctuator(Punctuator::Plus), 1)));
    assert_eq!(tokenize_impl(&chars, 6), Ok((name("x"), 1)));
    assert_eq!(tokenize_impl(&chars, 7), Err(LexErrorKind::EndOfBlock));
    assert_eq!(tokenize_impl(&chars, 70), Err(LexErrorKind::EndOfBlock));
    assert_eq!(tokenize_impl(&[], 0), Err(LexErrorKind::EndOfBlock));
}

#[test]
fn one_block_at_a_time() {
    assert_eq!(
        tokenize_loop(&classify("f(1)")),
        Ok(vec![
            name("f"),
            Token::Punctuator(Punctuator::ParenthesisLeft),
            Token::Constant(1),
            Token::Punctuator(Punctuator::ParenthesisRight),
        ])
    );
    assert_eq!(tokenize_loop(&classify("f(1)?")), Err((4, LexErrorKind::UnrecognizedCharacter)));
    assert_eq!(tokenize_loop(&[]), Ok(vec![]));
}

#[test]
fn literal_after_other_tokens() {
    let chars = classify("x='\\''");
    assert_eq!(character_literal(&chars, 2), Ok((Token::Constant(39), 4)));
    assert_eq!(character_literal(&chars, 5), Err(LexErrorKind::UnterminatedLiteral));
    assert_eq!(character_literal(&chars, 50), Err(LexErrorKind::UnterminatedLiteral));
}

#[test]
fn words_and_symbols() {
    assert_eq!(make_keyword(&classify("elsif")), Some(Keyword::ELSIF));
    assert_eq!(make_keyword(&classify("elsi")), None);
    assert_eq!(make_keyword(&classify("elsiff")), None);
    assert_eq!(make_keyword(&classify("")), None);
    assert_eq!(make_punctuator('%'), Some(Punctuator::Percent));
    assert_eq!(make_punctuator('!'), None);
    assert_eq!(make_punctuator('a'), None);
}

#[test]
fn value_of_digits() {
    assert_eq!(decimal_constant(&classify("1234567890")), 1234567890);
    assert_eq!(decimal_constant(&classify("")), 0);
    assert_eq!(decimal_constant(&classify("1a2")), 102);
}

#[test]
fn copies_are_equal() {
    let all = tokens("fn f ( 1 )");
    let copy: Vec<Token> = all.iter().map(|t| t.clone()).collect();
    assert_eq!(all, copy);
    let e = failure("a ?");
    assert_eq!(e.clone(), e);
}

#[test]
fn classes_of_characters() {
    let letter = classify_char('x');
    let digit = classify_char('5');
    let under = classify_char('_');
    let tab = classify_char('\t');
    let quote = classify_char('\'');
    assert!(is_identifier_nondigit(&letter));
    assert!(is_identifier_nondigit(&under));
    assert!(!is_identifier_nondigit(&digit));
    assert!(!is_identifier_nondigit(&quote));
    assert!(is_identifier_chars(&letter));
    assert!(is_identifier_chars(&under));
    assert!(is_identifier_chars(&digit));
    assert!(!is_identifier_chars(&tab));
    assert!(is_decimal_digit(&digit));
    assert!(is_decimal_digit(&classify_char('0')));
    assert!(is_decimal_digit(&classify_char('9')));
    assert!(!is_decimal_digit(&classify_char('/')));
    assert!(!is_decimal_digit(&classify_char(':')));
    assert!(!is_decimal_digit(&classify_char('\u{663}')));
    assert!(is_of_kind(&tab, CharKind::Blank));
    assert!(!is_of_kind(&tab, CharKind::Solid));
    assert!(is_of_kind(&quote, CharKind::Solid));
    assert!(is_of_kind(&digit, CharKind::DecimalDigit));
    assert!(is_of_kind(&digit, CharKind::IdentifierPart));
    assert!(!is_of_kind(&quote, CharKind::IdentifierPart));
    assert_eq!(digit_of(&digit), 5);
    assert_eq!(digit_of(&classify_char('0')), 0);
    assert_eq!(digit_of(&classify_char('9')), 9);
    assert_eq!(digit_of(&letter), 0);
}
