//! What follows from the grammar, proved once for every sequence of tokens.

use vstd::prelude::*;
use crate::tokenize::{Punctuator, TokenView};
use crate::parse::{LeafView, OperandView, ParseErrorView, Tree};
use crate::grammar::{
    punctuator_at, identifier_at, constant_at, expression_rule, call_rule, expression_list_rule,
    expression_items_rule, lemma_expression_bounds, statement_rule, lemma_statement_bounds,
    statement_list_rule, lemma_statements_bounds, parameters_rule, argument_list_rule,
    lemma_parameters_bounds, declaration_rule, lemma_declaration_bounds, program_rule,
};

verus! {

/// Terminators are required: whatever a rule accepts ends with the token
/// that closes it. A statement ends with `;`, the arguments of a call and
/// the parameters of a function with `)`, a function with `}`.
pub proof fn terminators_are_required(ts: Seq<TokenView>, pos: nat, name: Seq<char>)
    ensures
        statement_rule(ts, pos) matches Ok((_, n)) ==> punctuator_at(
            ts,
            (pos + n - 1) as nat,
            Punctuator::SemiColon,
        ),
        call_rule(ts, pos, name) matches Ok((_, n)) ==> punctuator_at(
            ts,
            (pos + n - 1) as nat,
            Punctuator::ParenthesisRight,
        ),
        argument_list_rule(ts, pos) matches Ok((_, n)) ==> punctuator_at(
            ts,
            (pos + n - 1) as nat,
            Punctuator::ParenthesisRight,
        ),
        declaration_rule(ts, pos) matches Ok((_, n)) ==> punctuator_at(
            ts,
            (pos + n - 1) as nat,
            Punctuator::BraceRight,
        ),
{
    lemma_statement_bounds(ts, pos);
    lemma_expression_bounds(ts, pos);
    lemma_parameters_bounds(ts, pos + 1, true);
    lemma_declaration_bounds(ts, pos);
}

/// A list stops only at the token that closes it: after the arguments of a
/// call comes `)`, after the statements of a body comes `}`.
pub proof fn lists_stop_at_their_end(ts: Seq<TokenView>, pos: nat)
    ensures
        expression_list_rule(ts, pos) matches Ok((_, n)) ==> punctuator_at(
            ts,
            pos + n,
            Punctuator::ParenthesisRight,
        ),
        statement_list_rule(ts, pos) matches Ok((_, n)) ==> punctuator_at(
            ts,
            pos + n,
            Punctuator::BraceRight,
        ),
{
    lemma_expression_bounds(ts, pos);
    lemma_statements_bounds(ts, pos);
}

/// The number of values that a function returns is the constant between
/// the brackets, and its name the identifier after them.
pub proof fn function_is_as_declared(ts: Seq<TokenView>, pos: nat)
    ensures
        declaration_rule(ts, pos) matches Ok((tree, _)) ==> tree is Node
            && tree->op is FunctionDeclare && constant_at(ts, pos + 2) is Some
            && tree->op->retnum == constant_at(ts, pos + 2)->Some_0 as usize && (constant_at(
            ts,
            pos + 2,
        )->Some_0 >= 0 ==> tree->op->retnum == constant_at(ts, pos + 2)->Some_0)
            && identifier_at(ts, pos + 4) == Some(tree->op->FunctionDeclare_name),
{
}

/// Tokens without a `;` hold no statement, and tokens without a `}` hold no
/// function: each fails, and gives no tree.
pub proof fn missing_terminator_fails(ts: Seq<TokenView>, pos: nat)
    ensures
        (forall|i: int| pos <= i < ts.len() ==> ts[i] != TokenView::Punctuator(Punctuator::SemiColon))
            ==> statement_rule(ts, pos) is Err,
        (forall|i: int|
            pos <= i < ts.len() ==> ts[i] != TokenView::Punctuator(Punctuator::BraceRight))
            ==> declaration_rule(ts, pos) is Err,
        (forall|i: int| 0 <= i < ts.len() ==> ts[i] != TokenView::Punctuator(Punctuator::BraceRight))
            && ts.len() > 0 ==> program_rule(ts) is Err,
{
    lemma_statement_bounds(ts, pos);
    lemma_declaration_bounds(ts, pos);
    lemma_declaration_bounds(ts, 0);
}

/// The number of tokens that a list of `count` single tokens takes with its
/// two parentheses and the commas between its items.
pub open spec fn list_length(count: nat) -> nat {
    if count == 0 {
        2
    } else {
        2 * count + 1
    }
}

/// The names after the first take two tokens each, the first takes one
/// more when it has to close the list at once.
pub proof fn parameters_take_two_each(ts: Seq<TokenView>, pos: nat, first: bool)
    ensures
        parameters_rule(ts, pos, first) matches Ok((names, n)) ==> n == if names.len() == 0 {
            1
        } else {
            2 * names.len()
        },
        parameters_rule(ts, pos, false) matches Ok((names, _)) ==> names.len() > 0,
    decreases ts.len() - pos,
{
    if pos + 1 < ts.len() {
        parameters_take_two_each(ts, pos + 2, false);
    }
}

/// A list of `N` parameters takes `2N + 1` tokens with its two parentheses,
/// and an empty one takes 2.
pub proof fn parameters_take_2n_plus_1(ts: Seq<TokenView>, pos: nat)
    ensures
        argument_list_rule(ts, pos) matches Ok((names, n)) ==> n == list_length(names.len()),
{
    parameters_take_two_each(ts, pos + 1, true);
}

/// Whether every tree of `items` is a leaf.
pub open spec fn all_leaves(items: Seq<Tree>) -> bool {
    forall|i: int| 0 <= i < items.len() ==> #[trigger] items[i] is Leaf
}

/// An expression of one token is a leaf, and a leaf is an expression of
/// one token; any other expression is a call.
pub proof fn leaf_is_one_token(ts: Seq<TokenView>, pos: nat)
    ensures
        expression_rule(ts, pos) matches Ok((tree, n)) ==> (tree is Leaf <==> n == 1) && (tree is Leaf
            || (tree is Node && tree->op is Call)),
{
    lemma_expression_bounds(ts, pos + 1);
    match identifier_at(ts, pos) {
        Some(name) => {
            assert(call_rule(ts, pos + 1, name) matches Ok((tree, n)) ==> tree is Node && n >= 2);
        },
        None => {},
    }
}

/// `N` expressions of one token each take `2N - 1` tokens with the commas
/// between them.
pub proof fn leaves_take_two_each(ts: Seq<TokenView>, pos: nat)
    ensures
        expression_items_rule(ts, pos) matches Ok((items, n)) ==> items.len() > 0 && (all_leaves(
            items,
        ) ==> n + 1 == 2 * items.len()),
    decreases ts.len() - pos,
{
    lemma_expression_bounds(ts, pos);
    leaf_is_one_token(ts, pos);
    match expression_rule(ts, pos) {
        Ok((first, n)) => {
            if punctuator_at(ts, pos + n, Punctuator::ParenthesisRight) {
                assert(seq![first][0] == first);
            } else if punctuator_at(ts, pos + n, Punctuator::Comma) {
                leaves_take_two_each(ts, pos + n + 1);
                match expression_items_rule(ts, pos + n + 1) {
                    Ok((rest, m)) => {
                        let items = seq![first] + rest;
                        if all_leaves(items) {
                            assert(items[0] is Leaf);
                            assert forall|i: int| 0 <= i < rest.len() implies #[trigger] rest[i] is Leaf by {
                                assert(items[i + 1] == rest[i]);
                            }
                        }
                    },
                    Err(_) => {},
                }
            }
        },
        Err(_) => {},
    }
}

/// A call with `N` arguments of one token each takes `2N + 1` tokens from
/// `(` to `)`, and one without arguments takes 2. Its tree is a call of the
/// given name.
pub proof fn leaf_arguments_take_2n_plus_1(ts: Seq<TokenView>, pos: nat, name: Seq<char>)
    ensures
        call_rule(ts, pos, name) matches Ok((tree, n)) ==> tree matches Tree::Node { op, children }
            && op == (OperandView::Call { name }) && (all_leaves(children) ==> n == list_length(
            children.len(),
        )),
{
    leaves_take_two_each(ts, pos + 1);
}

/// Whether the tokens of `ts` from `pos` on start with `written`.
pub open spec fn reads(ts: Seq<TokenView>, pos: nat, written: Seq<TokenView>) -> bool {
    pos + written.len() <= ts.len() && forall|i: int|
        0 <= i < written.len() ==> ts[pos + i] == #[trigger] written[i]
}

/// The token that writes a leaf.
pub open spec fn written_leaf(leaf: LeafView) -> TokenView {
    match leaf {
        LeafView::Identifier(name) => TokenView::Identifier(name),
        LeafView::Constant(value) => TokenView::Constant(value),
    }
}

/// How a list of single tokens is written: the tokens with a comma between
/// each two, in parentheses.
pub open spec fn written_list(items: Seq<TokenView>) -> Seq<TokenView> {
    Seq::new(
        list_length(items.len()),
        |i: int|
            if i == 0 {
                TokenView::Punctuator(Punctuator::ParenthesisLeft)
            } else if i == list_length(items.len()) - 1 {
                TokenView::Punctuator(Punctuator::ParenthesisRight)
            } else if i % 2 == 1 {
                items[i / 2]
            } else {
                TokenView::Punctuator(Punctuator::Comma)
            },
    )
}

/// The names of `names` as identifier tokens.
pub open spec fn identifiers(names: Seq<Seq<char>>) -> Seq<TokenView> {
    Seq::new(names.len(), |i: int| TokenView::Identifier(names[i]))
}

/// The leaves of `leaves` as tokens.
pub open spec fn leaf_tokens(leaves: Seq<LeafView>) -> Seq<TokenView> {
    Seq::new(leaves.len(), |i: int| written_leaf(leaves[i]))
}

/// The leaves of `leaves` as trees.
pub open spec fn leaf_trees(leaves: Seq<LeafView>) -> Seq<Tree> {
    Seq::new(leaves.len(), |i: int| Tree::Leaf(leaves[i]))
}

/// The names from the `k`-th on are read back from their place in a
/// written list.
proof fn names_are_read_back(ts: Seq<TokenView>, pos: nat, names: Seq<Seq<char>>, k: nat)
    requires
        reads(ts, pos, written_list(identifiers(names))),
        k < names.len(),
    ensures
        parameters_rule(ts, pos + 1 + 2 * k, k == 0) == Ok::<
            (Seq<Seq<char>>, nat),
            ParseErrorView,
        >((names.skip(k as int), 2 * (names.len() - k) as nat)),
    decreases names.len() - k,
{
    let w = written_list(identifiers(names));
    let at = pos + 1 + 2 * k;
    assert(ts[pos + (1 + 2 * k as int)] == w[1 + 2 * k as int]);
    assert(ts[pos + (2 + 2 * k as int)] == w[2 + 2 * k as int]);
    assert(identifier_at(ts, at) == Some(names[k as int]));
    if k + 1 == names.len() {
        assert(names.skip(k as int) =~= seq![names[k as int]]);
    } else {
        names_are_read_back(ts, pos, names, k + 1);
        assert(names.skip(k as int) =~= seq![names[k as int]] + names.skip(k + 1 as int));
    }
}

/// Round trip for parameters: `N` names, written with a comma between each
/// two and in parentheses, are read back as these names, and take `2N + 1`
/// tokens, or 2 where there is none.
pub proof fn parameters_are_read_back(ts: Seq<TokenView>, pos: nat, names: Seq<Seq<char>>)
    requires
        reads(ts, pos, written_list(identifiers(names))),
    ensures
        argument_list_rule(ts, pos) == Ok::<(Seq<Seq<char>>, nat), ParseErrorView>(
            (names, list_length(names.len())),
        ),
{
    let w = written_list(identifiers(names));
    assert(ts[pos + 0 as int] == w[0]);
    assert(ts[pos + 1 as int] == w[1]);
    if names.len() == 0 {
        assert(names =~= Seq::<Seq<char>>::empty());
    } else {
        names_are_read_back(ts, pos, names, 0);
        assert(names.skip(0) =~= names);
    }
}

/// The leaves from the `k`-th on are read back from their place in a
/// written list.
proof fn leaves_are_read_back(ts: Seq<TokenView>, pos: nat, leaves: Seq<LeafView>, k: nat)
    requires
        reads(ts, pos, written_list(leaf_tokens(leaves))),
        k < leaves.len(),
    ensures
        expression_items_rule(ts, pos + 1 + 2 * k) == Ok::<
            (Seq<Tree>, nat),
            ParseErrorView,
        >((leaf_trees(leaves).skip(k as int), (2 * (leaves.len() - k) - 1) as nat)),
    decreases leaves.len() - k,
{
    let w = written_list(leaf_tokens(leaves));
    let at = pos + 1 + 2 * k;
    assert(ts[pos + (1 + 2 * k as int)] == w[1 + 2 * k as int]);
    assert(ts[pos + (2 + 2 * k as int)] == w[2 + 2 * k as int]);
    assert(expression_rule(ts, at) == Ok::<(Tree, nat), ParseErrorView>(
        (Tree::Leaf(leaves[k as int]), 1),
    ));
    if k + 1 == leaves.len() {
        assert(leaf_trees(leaves).skip(k as int) =~= seq![Tree::Leaf(leaves[k as int])]);
    } else {
        leaves_are_read_back(ts, pos, leaves, k + 1);
        assert(leaf_trees(leaves).skip(k as int) =~= seq![Tree::Leaf(leaves[k as int])]
            + leaf_trees(leaves).skip(k + 1 as int));
    }
}

/// Round trip for arguments: `N` constants and identifiers, written with a
/// comma between each two and in parentheses, are read back as the
/// arguments of the call, and take `2N + 1` tokens, or 2 where there is
/// none.
pub proof fn leaf_arguments_are_read_back(
    ts: Seq<TokenView>,
    pos: nat,
    name: Seq<char>,
    leaves: Seq<LeafView>,
)
    requires
        reads(ts, pos, written_list(leaf_tokens(leaves))),
    ensures
        call_rule(ts, pos, name) == Ok::<(Tree, nat), ParseErrorView>(
            (
                Tree::Node { op: OperandView::Call { name }, children: leaf_trees(leaves) },
                list_length(leaves.len()),
            ),
        ),
{
    let w = written_list(leaf_tokens(leaves));
    assert(ts[pos + 0 as int] == w[0]);
    assert(ts[pos + 1 as int] == w[1]);
    if leaves.len() == 0 {
        assert(leaf_trees(leaves) =~= Seq::<Tree>::empty());
    } else {
        leaves_are_read_back(ts, pos, leaves, 0);
        assert(leaf_trees(leaves).skip(0) =~= leaf_trees(leaves));
    }
}

} // verus!
