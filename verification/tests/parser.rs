use tinylang::parse::{
    argument_list, call, clone_names, constant, declaration, declarations, expression,
    expression_list, identifier, is_keyword, is_punctuator, parse, statement, statement_list,
    violation, Expected, Leaf, Node, Operand, ParseError, ParseFailure, AST,
};
use tinylang::tokenize::{tokenize, Keyword, Punctuator, Token};

fn tokens(code: &str) -> Vec<Token> {
    tokenize(code).unwrap()
}

fn id(name: &str) -> AST {
    AST::Leaf(Leaf::Identifier(name.to_string()))
}

fn num(value: i32) -> AST {
    AST::Leaf(Leaf::Constant(value))
}

fn node(op: Operand, children: Vec<AST>) -> AST {
    AST::Node(Node { op, children })
}

fn call_of(name: &str, arguments: Vec<AST>) -> AST {
    node(Operand::Call { name: name.to_string() }, arguments)
}

fn function(name: &str, args: Vec<&str>, retnum: usize, statements: Vec<AST>) -> AST {
    node(
        Operand::FunctionDeclare {
            name: name.to_string(),
            args: args.iter().map(|a| a.to_string()).collect(),
            retnum,
        },
        vec![node(Operand::Statement, statements)],
    )
}

fn unexpected(position: usize, expected: Expected, found: Token) -> ParseError {
    ParseError::UnexpectedToken { position, expected, found }
}

fn end(position: usize, expected: Expected) -> ParseError {
    ParseError::UnexpectedEndOfInput { position, expected }
}

fn punct(p: Punctuator) -> Token {
    Token::Punctuator(p)
}

#[test]
fn empty_parameter_list_takes_two_tokens() {
    assert_eq!(argument_list(&tokens("()"), 0), Ok((vec![], 2)));
}

#[test]
fn two_parameters_take_five_tokens() {
    assert_eq!(
        argument_list(&tokens("(a, b)"), 0),
        Ok((vec!["a".to_string(), "b".to_string()], 5))
    );
}

#[test]
fn parameters_take_two_tokens_each_and_one() {
    let mut text = String::from("(p0");
    let mut names = vec!["p0".to_string()];
    for n in 1..40 {
        assert_eq!(
            argument_list(&tokens(&format!("{})", text)), 0),
            Ok((names.clone(), 2 * n + 1))
        );
        text.push_str(&format!(", p{}", n));
        names.push(format!("p{}", n));
    }
}

#[test]
fn parameters_may_repeat() {
    assert_eq!(
        argument_list(&tokens("(a, a)"), 0),
        Ok((vec!["a".to_string(), "a".to_string()], 5))
    );
}

#[test]
fn parameters_in_the_middle_of_the_tokens() {
    assert_eq!(argument_list(&tokens("f (x) {"), 1), Ok((vec!["x".to_string()], 3)));
}

#[test]
fn trailing_comma_in_parameters_fails() {
    assert_eq!(
        argument_list(&tokens("(a, )"), 0),
        Err(unexpected(3, Expected::Identifier, punct(Punctuator::ParenthesisRight)))
    );
}

#[test]
fn parameters_must_be_identifiers() {
    assert_eq!(
        argument_list(&tokens("(1)"), 0),
        Err(unexpected(1, Expected::IdentifierOrParenthesisRight, Token::Constant(1)))
    );
    assert_eq!(
        argument_list(&tokens("(a b)"), 0),
        Err(unexpected(2, Expected::CommaOrParenthesisRight, Token::Identifier("b".to_string())))
    );
    assert_eq!(
        argument_list(&tokens("a"), 0),
        Err(unexpected(0, Expected::ParenthesisLeft, Token::Identifier("a".to_string())))
    );
}

#[test]
fn parameters_cut_short_fail() {
    assert_eq!(argument_list(&tokens(""), 0), Err(end(0, Expected::ParenthesisLeft)));
    assert_eq!(argument_list(&tokens("("), 0), Err(end(1, Expected::IdentifierOrParenthesisRight)));
    assert_eq!(argument_list(&tokens("(a"), 0), Err(end(2, Expected::CommaOrParenthesisRight)));
    assert_eq!(argument_list(&tokens("(a,"), 0), Err(end(3, Expected::Identifier)));
}

#[test]
fn function_with_an_assignment() {
    let tree = parse(&tokens("fn[1] add(a, b) { c = add(a, b); }")).unwrap();
    assert_eq!(
        tree,
        node(
            Operand::Declare,
            vec![function(
                "add",
                vec!["a", "b"],
                1,
                vec![node(
                    Operand::Substitute,
                    vec![id("c"), call_of("add", vec![id("a"), id("b")])]
                )]
            )]
        )
    );
}

#[test]
fn empty_program() {
    assert_eq!(parse(&[]), Ok(node(Operand::Declare, vec![])));
}

#[test]
fn functions_in_the_order_of_the_source() {
    let tree = parse(&tokens("fn[0] f() {} fn[2] g(x) { f(); x = 1; g(x); } fn[0] h() {}")).unwrap();
    assert_eq!(
        tree,
        node(
            Operand::Declare,
            vec![
                function("f", vec![], 0, vec![]),
                function(
                    "g",
                    vec!["x"],
                    2,
                    vec![
                        call_of("f", vec![]),
                        node(Operand::Substitute, vec![id("x"), num(1)]),
                        call_of("g", vec![id("x")]),
                    ]
                ),
                function("h", vec![], 0, vec![]),
            ]
        )
    );
}

#[test]
fn statement_without_semicolon_fails() {
    let failed = parse(&tokens("fn[1] f() { a = 1 }")).unwrap_err();
    assert_eq!(
        failed,
        ParseFailure {
            declarations: 0,
            error: unexpected(11, Expected::SemiColon, punct(Punctuator::BraceRight)),
        }
    );
    assert_eq!(
        statement(&tokens("a = 1"), 0),
        Err(end(3, Expected::SemiColon))
    );
    assert_eq!(statement(&tokens("f(1)"), 0), Err(end(4, Expected::SemiColon)));
    assert_eq!(
        statement(&tokens("f(1) g"), 0),
        Err(unexpected(4, Expected::SemiColon, Token::Identifier("g".to_string())))
    );
}

#[test]
fn function_without_closing_brace_fails() {
    assert_eq!(
        parse(&tokens("fn[1] f() { a = 1;")),
        Err(ParseFailure { declarations: 0, error: end(12, Expected::Identifier) })
    );
}

#[test]
fn call_without_closing_parenthesis_fails() {
    assert_eq!(
        call(&tokens("(a, b"), 0, "f".to_string()),
        Err(end(4, Expected::CommaOrParenthesisRight))
    );
    assert_eq!(
        call(&tokens("(a; b)"), 0, "f".to_string()),
        Err(unexpected(2, Expected::CommaOrParenthesisRight, punct(Punctuator::SemiColon)))
    );
}

#[test]
fn failure_counts_the_functions_before_it() {
    let failed = parse(&tokens("fn[0] f() {} fn[0] g() {} fn[0] h( {}")).unwrap_err();
    assert_eq!(failed.declarations, 2);
    assert_eq!(
        failed.error,
        unexpected(24, Expected::IdentifierOrParenthesisRight, punct(Punctuator::BraceLeft))
    );
}

#[test]
fn tokens_after_the_last_function_fail() {
    assert_eq!(
        parse(&tokens("fn[0] f() {} ;")),
        Err(ParseFailure {
            declarations: 1,
            error: unexpected(9, Expected::KeywordFn, punct(Punctuator::SemiColon)),
        })
    );
}

#[test]
fn each_part_of_a_function_is_required() {
    let cases: Vec<(&str, ParseError)> = vec![
        ("val", unexpected(0, Expected::KeywordFn, Token::Keyword(Keyword::VAL))),
        ("fn", end(1, Expected::BracketLeft)),
        ("fn (", unexpected(1, Expected::BracketLeft, punct(Punctuator::ParenthesisLeft))),
        ("fn [ x", unexpected(2, Expected::ReturnCount, Token::Identifier("x".to_string()))),
        ("fn [ 1 f", unexpected(3, Expected::BracketRight, Token::Identifier("f".to_string()))),
        ("fn [ 1 ] 2", unexpected(4, Expected::Identifier, Token::Constant(2))),
        ("fn [ 1 ] f", end(5, Expected::ParenthesisLeft)),
        ("fn [ 1 ] f ( )", end(7, Expected::BraceLeft)),
        ("fn [ 1 ] f ( ) ;", unexpected(7, Expected::BraceLeft, punct(Punctuator::SemiColon))),
        ("fn [ 1 ] f ( ) {", end(8, Expected::Identifier)),
        ("fn [ 1 ] f ( ) { 1", unexpected(8, Expected::Identifier, Token::Constant(1))),
    ];
    for (text, error) in cases {
        assert_eq!(declaration(&tokens(text), 0), Err(error));
    }
}

#[test]
fn function_takes_all_its_tokens() {
    let all = tokens("fn[3] f(a) { a = 1; } fn");
    let (tree, taken) = declaration(&all, 0).unwrap();
    assert_eq!(taken, 14);
    assert_eq!(
        tree,
        function("f", vec!["a"], 3, vec![node(Operand::Substitute, vec![id("a"), num(1)])])
    );
}

#[test]
fn return_count_is_stored_as_written() {
    let (tree, _) = declaration(&tokens("fn['a'] f() {}"), 0).unwrap();
    assert_eq!(tree, function("f", vec![], 97, vec![]));
    let mut all = tokens("fn[0] f() {}");
    all[2] = Token::Constant(-1);
    let (tree, _) = declaration(&all, 0).unwrap();
    assert_eq!(tree, function("f", vec![], usize::MAX, vec![]));
}

#[test]
fn expression_is_a_leaf_or_a_call() {
    assert_eq!(expression(&tokens("42"), 0), Ok((num(42), 1)));
    assert_eq!(expression(&tokens("x"), 0), Ok((id("x"), 1)));
    assert_eq!(expression(&tokens("x + 1"), 0), Ok((id("x"), 1)));
    assert_eq!(expression(&tokens("f()"), 0), Ok((call_of("f", vec![]), 3)));
    assert_eq!(
        expression(&tokens("f(g(1, h()), x)"), 0),
        Ok((
            call_of("f", vec![call_of("g", vec![num(1), call_of("h", vec![])]), id("x")]),
            13
        ))
    );
}

#[test]
fn expression_needs_a_constant_or_an_identifier() {
    assert_eq!(expression(&tokens(""), 0), Err(end(0, Expected::Expression)));
    assert_eq!(expression(&tokens("x"), 5), Err(end(5, Expected::Expression)));
    assert_eq!(
        expression(&tokens("+ 1"), 0),
        Err(unexpected(0, Expected::Expression, punct(Punctuator::Plus)))
    );
    assert_eq!(
        expression(&tokens("if"), 0),
        Err(unexpected(0, Expected::Expression, Token::Keyword(Keyword::IF)))
    );
}

#[test]
fn arguments_take_two_tokens_each_and_one() {
    assert_eq!(call(&tokens("()"), 0, "f".to_string()), Ok((call_of("f", vec![]), 2)));
    let mut text = String::from("(0");
    let mut arguments = vec![num(0)];
    for n in 1..40 {
        let (tree, taken) = call(&tokens(&format!("{})", text)), 0, "f".to_string()).unwrap();
        assert_eq!(taken, 2 * n + 1);
        assert_eq!(tree, call_of("f", arguments.iter().map(|a| a.clone()).collect()));
        if n % 2 == 0 {
            text.push_str(&format!(", {}", n));
            arguments.push(num(n as i32));
        } else {
            text.push_str(&format!(", a{}", n));
            arguments.push(id(&format!("a{}", n)));
        }
    }
}

#[test]
fn nested_call_takes_more_than_one_token() {
    assert_eq!(
        call(&tokens("(g())"), 0, "f".to_string()),
        Ok((call_of("f", vec![call_of("g", vec![])]), 5))
    );
}

#[test]
fn trailing_comma_in_arguments_fails() {
    assert_eq!(
        call(&tokens("(a, )"), 0, "f".to_string()),
        Err(unexpected(3, Expected::Expression, punct(Punctuator::ParenthesisRight)))
    );
    assert_eq!(
        expression_list(&tokens(", a )"), 0),
        Err(unexpected(0, Expected::Expression, punct(Punctuator::Comma)))
    );
}

#[test]
fn list_of_expressions_leaves_the_parenthesis() {
    assert_eq!(expression_list(&tokens(")"), 0), Ok((vec![], 0)));
    assert_eq!(expression_list(&tokens("a, 1)"), 0), Ok((vec![id("a"), num(1)], 3)));
    assert_eq!(expression_list(&tokens(""), 0), Err(end(0, Expected::Expression)));
}

#[test]
fn call_starts_with_a_parenthesis() {
    assert_eq!(
        call(&tokens("a"), 0, "f".to_string()),
        Err(unexpected(0, Expected::ParenthesisLeft, Token::Identifier("a".to_string())))
    );
    assert_eq!(call(&tokens("a"), 1, "f".to_string()), Err(end(1, Expected::ParenthesisLeft)));
}

#[test]
fn statement_is_an_assignment_or_a_call() {
    assert_eq!(
        statement(&tokens("a = f(b);"), 0),
        Ok((node(Operand::Substitute, vec![id("a"), call_of("f", vec![id("b")])]), 7))
    );
    assert_eq!(statement(&tokens("f(b, 2);"), 0), Ok((call_of("f", vec![id("b"), num(2)]), 7)));
    assert_eq!(statement(&tokens("x = 'a';"), 0), Ok((
        node(Operand::Substitute, vec![id("x"), num(97)]),
        4
    )));
}

#[test]
fn statement_starts_with_an_identifier() {
    assert_eq!(statement(&tokens(""), 0), Err(end(0, Expected::Identifier)));
    assert_eq!(statement(&tokens("1 = a;"), 0), Err(unexpected(0, Expected::Identifier, Token::Constant(1))));
    assert_eq!(statement(&tokens("a"), 0), Err(end(1, Expected::EqualOrParenthesisLeft)));
    assert_eq!(
        statement(&tokens("a + 1;"), 0),
        Err(unexpected(1, Expected::EqualOrParenthesisLeft, punct(Punctuator::Plus)))
    );
    assert_eq!(
        statement(&tokens("a = ;"), 0),
        Err(unexpected(2, Expected::Expression, punct(Punctuator::SemiColon)))
    );
}

#[test]
fn operators_are_not_expressions() {
    assert_eq!(
        statement(&tokens("a = b + 1;"), 0),
        Err(unexpected(3, Expected::SemiColon, punct(Punctuator::Plus)))
    );
}

#[test]
fn block_of_statements() {
    assert_eq!(statement_list(&tokens("}"), 0), Ok((node(Operand::Statement, vec![]), 0)));
    assert_eq!(
        statement_list(&tokens("{ a = 1; f(); }"), 1),
        Ok((
            node(
                Operand::Statement,
                vec![node(Operand::Substitute, vec![id("a"), num(1)]), call_of("f", vec![])]
            ),
            8
        ))
    );
    assert_eq!(statement_list(&tokens("a = 1;"), 0), Err(end(4, Expected::Identifier)));
}

#[test]
fn list_of_functions() {
    assert_eq!(declarations(&tokens("fn[0] f() {}"), 9), Ok(vec![]));
    assert_eq!(
        declarations(&tokens("x fn[0] f() {}"), 1),
        Ok(vec![function("f", vec![], 0, vec![])])
    );
    assert_eq!(
        declarations(&tokens("x fn[0] f() {}"), 0),
        Err(ParseFailure {
            declarations: 0,
            error: unexpected(0, Expected::KeywordFn, Token::Identifier("x".to_string())),
        })
    );
}

#[test]
fn copies_of_trees_are_equal() {
    let tree = parse(&tokens("fn[2] g(x, y) { f(); x = h(1, y); }")).unwrap();
    assert_eq!(tree.clone(), tree);
    if let AST::Node(root) = &tree {
        assert_eq!(root.clone(), *root);
        assert_eq!(root.op.clone(), Operand::Declare);
    } else {
        panic!("the root is a node");
    }
    let failed = parse(&tokens("fn[2] g(x, y) { f() }")).unwrap_err();
    assert_eq!(failed.clone(), failed);
    assert_eq!(Leaf::Constant(3).clone(), Leaf::Constant(3));
}

#[test]
fn looking_at_one_token() {
    let all = tokens("fn x 7 ;");
    assert!(is_keyword(&all, 0, Keyword::FN));
    assert!(!is_keyword(&all, 0, Keyword::IF));
    assert!(!is_keyword(&all, 1, Keyword::FN));
    assert!(!is_keyword(&all, 4, Keyword::FN));
    assert!(is_punctuator(&all, 3, Punctuator::SemiColon));
    assert!(!is_punctuator(&all, 3, Punctuator::Comma));
    assert!(!is_punctuator(&all, 2, Punctuator::SemiColon));
    assert!(!is_punctuator(&all, 4, Punctuator::SemiColon));
    assert_eq!(identifier(&all, 1), Some("x".to_string()));
    assert_eq!(identifier(&all, 0), None);
    assert_eq!(identifier(&all, 9), None);
    assert_eq!(constant(&all, 2), Some(7));
    assert_eq!(constant(&all, 1), None);
    assert_eq!(constant(&all, 4), None);
    assert_eq!(violation(&all, 2, Expected::BraceLeft), unexpected(2, Expected::BraceLeft, Token::Constant(7)));
    assert_eq!(violation(&all, 4, Expected::BraceLeft), end(4, Expected::BraceLeft));
    let names = vec!["a".to_string(), "bc".to_string()];
    assert_eq!(clone_names(&names), names);
}
