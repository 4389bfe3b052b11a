//! That the grammar accepts nothing but what was written: the tokens that a
//! rule takes are the writing of the tree that it gives.

use vstd::prelude::*;
use crate::tokenize::{Keyword, Punctuator, TokenView};
use crate::parse::{LeafView, ParseErrorView, Tree};
use crate::grammar::{
    punctuator_at, identifier_at, constant_at, expression_rule, call_rule, expression_list_rule,
    expression_items_rule, lemma_expression_bounds, statement_rule, lemma_statement_bounds,
    statements_rule, parameters_rule, argument_list_rule, declaration_rule,
    lemma_declaration_bounds, declarations_rule, program_rule,
};
use crate::grammar_theorems::{
    reads, written_list, identifiers, list_length, parameters_take_two_each,
    leaves_take_two_each,
};
use crate::writing::{
    symbol, written_expression, written_arguments, written_statement, written_statements,
    written_function, written_functions, written_program, reads_both,
};

verus! {

/// The arguments after the first are written as they are without it.
pub proof fn written_arguments_after_first(first: Tree, rest: Seq<Tree>, k: nat)
    ensures
        written_arguments(seq![first] + rest, k + 1) == written_arguments(rest, k),
    decreases rest.len() - k,
{
    let all = seq![first] + rest;
    if k < rest.len() {
        assert(all[k + 1 as int] == rest[k as int]);
        if k + 1 < rest.len() {
            written_arguments_after_first(first, rest, k + 1);
        }
    }
}

/// What is read was written, for expressions: the tokens that an
/// expression, the arguments of a call or a list of expressions take are
/// the writing of what the rule gives.
pub proof fn expression_was_written(ts: Seq<TokenView>, pos: nat)
    ensures
        expression_rule(ts, pos) matches Ok((t, n)) ==> n == written_expression(t).len() && reads(
            ts,
            pos,
            written_expression(t),
        ),
        forall|name: Seq<char>|
            #![trigger call_rule(ts, pos, name)]
            call_rule(ts, pos, name) matches Ok((t, n)) ==> n + 1 == written_expression(t).len()
                && reads(ts, pos, written_expression(t).skip(1)),
        expression_list_rule(ts, pos) matches Ok((items, n)) ==> n == written_arguments(
            items,
            0,
        ).len() && reads(ts, pos, written_arguments(items, 0)),
        expression_items_rule(ts, pos) matches Ok((items, n)) ==> n == written_arguments(
            items,
            0,
        ).len() && reads(ts, pos, written_arguments(items, 0)),
    decreases ts.len() - pos,
{
    if pos < ts.len() {
        expression_was_written(ts, pos + 1);
        lemma_expression_bounds(ts, pos);
        lemma_expression_bounds(ts, pos + 1);
        // a call, from its parenthesis on
        assert forall|name: Seq<char>|
            #![trigger call_rule(ts, pos, name)]
            (call_rule(ts, pos, name) matches Ok((t, n)) ==> n + 1 == written_expression(t).len()
                && reads(ts, pos, written_expression(t).skip(1))) by {
            match call_rule(ts, pos, name) {
                Ok((t, n)) => {
                    let items = t->children;
                    let open = seq![symbol(Punctuator::ParenthesisLeft)];
                    let middle = written_arguments(items, 0);
                    let close = seq![symbol(Punctuator::ParenthesisRight)];
                    let head = seq![TokenView::Identifier(name)] + open;
                    assert(written_expression(t) =~= head + middle + close);
                    assert(written_expression(t).skip(1) =~= open + middle + close);
                    reads_both(ts, pos, open + middle, close);
                    reads_both(ts, pos, open, middle);
                },
                Err(_) => {},
            }
        }
        // an expression
        match expression_rule(ts, pos) {
            Ok((t, n)) => {
                match identifier_at(ts, pos) {
                    Some(name) => {
                        if punctuator_at(ts, pos + 1, Punctuator::ParenthesisLeft) {
                            assert(call_rule(ts, pos + 1, name) == Ok::<
                                (Tree, nat),
                                ParseErrorView,
                            >((t, (n - 1) as nat)));
                            let w = written_expression(t);
                            assert(w =~= seq![w[0]] + w.skip(1));
                            assert(w[0] == TokenView::Identifier(name)) by {
                                let head = seq![
                                    TokenView::Identifier(name),
                                    symbol(Punctuator::ParenthesisLeft),
                                ];
                                assert(w == head + written_arguments(t->children, 0) + seq![
                                    symbol(Punctuator::ParenthesisRight),
                                ]);
                                assert(w[0] == head[0]);
                            }
                            reads_both(ts, pos, seq![w[0]], w.skip(1));
                        }
                    },
                    None => {},
                }
                // a list that starts with it
                if punctuator_at(ts, pos + n, Punctuator::Comma) {
                    expression_was_written(ts, pos + n + 1);
                    match expression_items_rule(ts, pos + n + 1) {
                        Ok((rest, m)) => {
                            let items = seq![t] + rest;
                            let comma = seq![symbol(Punctuator::Comma)];
                            written_arguments_after_first(t, rest, 0);
                            leaves_take_two_each(ts, pos + n + 1);
                            assert(items[0] == t);
                            assert(written_arguments(items, 0) == written_expression(t) + comma
                                + written_arguments(rest, 0));
                            reads_both(
                                ts,
                                pos,
                                written_expression(t) + comma,
                                written_arguments(rest, 0),
                            );
                            reads_both(ts, pos, written_expression(t), comma);
                        },
                        Err(_) => {},
                    }
                } else {
                    assert(seq![t][0] == t);
                }
            },
            Err(_) => {},
        }
    }
}

/// What is read was written, for statements.
pub proof fn statement_was_written(ts: Seq<TokenView>, pos: nat)
    ensures
        statement_rule(ts, pos) matches Ok((t, n)) ==> n == written_statement(t).len() && reads(
            ts,
            pos,
            written_statement(t),
        ),
{
    lemma_statement_bounds(ts, pos);
    match statement_rule(ts, pos) {
        Ok((t, n)) => {
            let name = identifier_at(ts, pos)->Some_0;
            let semi = seq![symbol(Punctuator::SemiColon)];
            if punctuator_at(ts, pos + 1, Punctuator::Equal) {
                expression_was_written(ts, pos + 2);
                let value = t->children[1];
                let head = seq![TokenView::Identifier(name), symbol(Punctuator::Equal)];
                assert(t->children[0] == Tree::Leaf(LeafView::Identifier(name)));
                assert(written_statement(t) == head + written_expression(value) + semi);
                reads_both(ts, pos, head + written_expression(value), semi);
                reads_both(ts, pos, head, written_expression(value));
            } else {
                expression_was_written(ts, pos + 1);
                lemma_expression_bounds(ts, pos + 1);
                assert(call_rule(ts, pos + 1, name) == Ok::<(Tree, nat), ParseErrorView>(
                    (t, (n - 2) as nat),
                ));
                let w = written_expression(t);
                assert(w[0] == TokenView::Identifier(name)) by {
                    let head = seq![
                        TokenView::Identifier(name),
                        symbol(Punctuator::ParenthesisLeft),
                    ];
                    assert(w == head + written_arguments(t->children, 0) + seq![
                        symbol(Punctuator::ParenthesisRight),
                    ]);
                    assert(w[0] == head[0]);
                }
                assert(w =~= seq![w[0]] + w.skip(1));
                reads_both(ts, pos, seq![w[0]], w.skip(1));
                assert(written_statement(t) == w + semi);
                reads_both(ts, pos, w, semi);
            }
        },
        Err(_) => {},
    }
}

/// The statements after the first are written as they are without it.
pub proof fn written_statements_after_first(first: Tree, rest: Seq<Tree>, k: nat)
    ensures
        written_statements(seq![first] + rest, k + 1) == written_statements(rest, k),
    decreases rest.len() - k,
{
    let all = seq![first] + rest;
    if k < rest.len() {
        assert(all[k + 1 as int] == rest[k as int]);
        written_statements_after_first(first, rest, k + 1);
    }
}

/// What is read was written, for the statements of a body.
pub proof fn statements_were_written(ts: Seq<TokenView>, pos: nat)
    ensures
        statements_rule(ts, pos) matches Ok((items, n)) ==> n == written_statements(
            items,
            0,
        ).len() && reads(ts, pos, written_statements(items, 0)),
    decreases ts.len() - pos,
{
    if !punctuator_at(ts, pos, Punctuator::BraceRight) {
        match statement_rule(ts, pos) {
            Ok((first, n)) => {
                lemma_statement_bounds(ts, pos);
                statement_was_written(ts, pos);
                statements_were_written(ts, pos + n);
                match statements_rule(ts, pos + n) {
                    Ok((rest, m)) => {
                        let items = seq![first] + rest;
                        written_statements_after_first(first, rest, 0);
                        assert(items[0] == first);
                        reads_both(ts, pos, written_statement(first), written_statements(rest, 0));
                    },
                    Err(_) => {},
                }
            },
            Err(_) => {},
        }
    }
}

/// Where parameters are read, the names stand at every second token, with
/// commas between them and `)` after the last.
pub proof fn parameters_stand_in_place(ts: Seq<TokenView>, pos: nat, first: bool)
    ensures
        parameters_rule(ts, pos, first) matches Ok((names, n)) ==> pos + n <= ts.len()
            && punctuator_at(ts, (pos + n - 1) as nat, Punctuator::ParenthesisRight) && (forall|
            j: int,
        |
            0 <= j < names.len() ==> ts[pos + 2 * j] == TokenView::Identifier(
                #[trigger] names[j],
            )) && (forall|j: int|
            0 <= j < names.len() - 1 ==> #[trigger] ts[pos + 2 * j + 1] == symbol(
                Punctuator::Comma,
            )),
    decreases ts.len() - pos,
{
    parameters_take_two_each(ts, pos, first);
    match parameters_rule(ts, pos, first) {
        Ok((names, n)) => {
            if names.len() > 0 && punctuator_at(ts, pos + 1, Punctuator::Comma) {
                parameters_stand_in_place(ts, pos + 2, false);
                parameters_take_two_each(ts, pos + 2, false);
                let rest = parameters_rule(ts, pos + 2, false)->Ok_0.0;
                assert(names == seq![names[0]] + rest);
                assert forall|j: int| 0 <= j < names.len() implies ts[pos + 2 * j]
                    == TokenView::Identifier(#[trigger] names[j]) by {
                    if j > 0 {
                        assert(names[j] == rest[j - 1]);
                        assert(ts[pos + 2 + 2 * (j - 1)] == TokenView::Identifier(rest[j - 1]));
                    }
                }
                assert forall|j: int| 0 <= j < names.len() - 1 implies #[trigger] ts[pos + 2 * j
                    + 1] == symbol(Punctuator::Comma) by {
                    if j > 0 {
                        assert(ts[pos + 2 + 2 * (j - 1) + 1] == symbol(Punctuator::Comma));
                    }
                }
            }
        },
        Err(_) => {},
    }
}

/// What is read was written, for parameters.
pub proof fn parameters_were_written(ts: Seq<TokenView>, pos: nat)
    ensures
        argument_list_rule(ts, pos) matches Ok((names, n)) ==> n == list_length(names.len())
            && reads(ts, pos, written_list(identifiers(names))),
{
    parameters_stand_in_place(ts, pos + 1, true);
    parameters_take_two_each(ts, pos + 1, true);
    match argument_list_rule(ts, pos) {
        Ok((names, n)) => {
            let w = written_list(identifiers(names));
            assert forall|i: int| 0 <= i < w.len() implies ts[pos + i] == #[trigger] w[i] by {
                if i == 0 {
                } else if i == w.len() - 1 {
                } else if i % 2 == 1 {
                    let j = i / 2;
                    assert(ts[pos + 1 + 2 * j] == TokenView::Identifier(names[j]));
                } else {
                    let j = i / 2 - 1;
                    assert(ts[pos + 1 + 2 * j + 1] == symbol(Punctuator::Comma));
                }
            }
        },
        Err(_) => {},
    }
}

/// Whether no constant among the tokens is negative.
pub open spec fn no_negative_constant(ts: Seq<TokenView>) -> bool {
    forall|i: int|
        0 <= i < ts.len() ==> (#[trigger] ts[i] matches TokenView::Constant(value) ==> value >= 0)
}

/// What is read was written, for functions that return a number of values
/// that is not negative.
pub proof fn function_was_written(ts: Seq<TokenView>, pos: nat)
    ensures
        declaration_rule(ts, pos) matches Ok((t, n)) ==> constant_at(ts, pos + 2)->Some_0 >= 0
            ==> n == written_function(t).len() && reads(ts, pos, written_function(t)),
{
    lemma_declaration_bounds(ts, pos);
    match declaration_rule(ts, pos) {
        Ok((t, n)) => {
            let count = constant_at(ts, pos + 2)->Some_0;
            if count >= 0 {
                let name = identifier_at(ts, pos + 4)->Some_0;
                let (args, seek) = argument_list_rule(ts, pos + 5)->Ok_0;
                let (statements, seek2) = statements_rule(ts, pos + 6 + seek)->Ok_0;
                parameters_were_written(ts, pos + 5);
                statements_were_written(ts, pos + 6 + seek);
                let head = seq![
                    TokenView::Keyword(Keyword::FN),
                    symbol(Punctuator::BracketLeft),
                    TokenView::Constant(count),
                    symbol(Punctuator::BracketRight),
                    TokenView::Identifier(name),
                ];
                let list = written_list(identifiers(args));
                let open = seq![symbol(Punctuator::BraceLeft)];
                let body = written_statements(statements, 0);
                let close = seq![symbol(Punctuator::BraceRight)];
                assert(t->children[0]->children == statements);
                assert(written_function(t) == head + list + open + body + close);
                reads_both(ts, pos, head + list + open + body, close);
                reads_both(ts, pos, head + list + open, body);
                reads_both(ts, pos, head + list, open);
                reads_both(ts, pos, head, list);
            }
        },
        Err(_) => {},
    }
}

/// The functions after the first are written as they are without it.
pub proof fn written_functions_after_first(first: Tree, rest: Seq<Tree>, k: nat)
    ensures
        written_functions(seq![first] + rest, k + 1) == written_functions(rest, k),
    decreases rest.len() - k,
{
    let all = seq![first] + rest;
    if k < rest.len() {
        assert(all[k + 1 as int] == rest[k as int]);
        written_functions_after_first(first, rest, k + 1);
    }
}

/// What is read was written, for the functions of a program: where no
/// constant is negative, the tokens from `pos` to the end are the writing
/// of the functions that the rule gives.
pub proof fn functions_were_written(ts: Seq<TokenView>, pos: nat)
    requires
        no_negative_constant(ts),
        pos <= ts.len(),
    ensures
        declarations_rule(ts, pos) matches Ok(items) ==> pos + written_functions(items, 0).len()
            == ts.len() && reads(ts, pos, written_functions(items, 0)),
    decreases ts.len() - pos,
{
    if pos < ts.len() {
        match declaration_rule(ts, pos) {
            Ok((first, n)) => {
                lemma_declaration_bounds(ts, pos);
                function_was_written(ts, pos);
                assert(ts[pos + 2 as int] is Constant);
                functions_were_written(ts, pos + n);
                match declarations_rule(ts, pos + n) {
                    Ok(rest) => {
                        let items = seq![first] + rest;
                        written_functions_after_first(first, rest, 0);
                        assert(items[0] == first);
                        reads_both(ts, pos, written_function(first), written_functions(rest, 0));
                    },
                    Err(_) => {},
                }
            },
            Err(_) => {},
        }
    }
}

/// What is read was written: tokens without a negative constant that are
/// parsed to a program are the writing of that program.
pub proof fn program_was_written(ts: Seq<TokenView>)
    requires
        no_negative_constant(ts),
    ensures
        program_rule(ts) matches Ok(t) ==> written_program(t) == ts,
{
    functions_were_written(ts, 0);
    match program_rule(ts) {
        Ok(t) => {
            let w = written_program(t);
            assert(w.len() == ts.len());
            assert forall|i: int| 0 <= i < w.len() implies w[i] == ts[i] by {
                assert(ts[0 + i] == w[i]);
            }
            assert(w =~= ts);
        },
        Err(_) => {},
    }
}

} // verus!
