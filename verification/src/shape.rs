//! The shape of the trees that the grammar gives: which children a node of
//! each kind has.

use vstd::prelude::*;
use crate::tokenize::{Punctuator, TokenView};
use crate::parse::{OperandView, Tree};
use crate::grammar::{
    punctuator_at, identifier_at, expression_rule, call_rule, expression_list_rule,
    expression_items_rule, lemma_expression_bounds, statement_rule, lemma_statement_bounds,
    statements_rule, statement_list_rule, argument_list_rule, declaration_rule, lemma_declaration_bounds,
    declarations_rule, program_rule,
};

verus! {

/// An expression is a leaf, or a call with one expression for each
/// argument.
pub open spec fn is_expression(t: Tree) -> bool
    decreases t,
{
    match t {
        Tree::Leaf(_) => true,
        Tree::Node { op, children } => op is Call && forall|i: int|
            0 <= i < children.len() ==> is_expression(#[trigger] children[i]),
    }
}

/// A statement is an assignment, with the identifier it assigns to and the
/// expression it assigns, or a call.
pub open spec fn is_statement(t: Tree) -> bool {
    match t {
        Tree::Leaf(_) => false,
        Tree::Node { op, children } => match op {
            OperandView::Substitute => children.len() == 2 && children[0] is Leaf
                && children[0]->Leaf_0 is Identifier && is_expression(children[1]),
            OperandView::Call { .. } => is_expression(t),
            _ => false,
        },
    }
}

/// A block has one statement for each child.
pub open spec fn is_block(t: Tree) -> bool {
    match t {
        Tree::Leaf(_) => false,
        Tree::Node { op, children } => op is Statement && forall|i: int|
            0 <= i < children.len() ==> is_statement(#[trigger] children[i]),
    }
}

/// A function has its body, a block, as its only child.
pub open spec fn is_function(t: Tree) -> bool {
    match t {
        Tree::Leaf(_) => false,
        Tree::Node { op, children } => op is FunctionDeclare && children.len() == 1 && is_block(
            children[0],
        ),
    }
}

/// A program has one function for each child of its root.
pub open spec fn is_program(t: Tree) -> bool {
    match t {
        Tree::Leaf(_) => false,
        Tree::Node { op, children } => op is Declare && forall|i: int|
            0 <= i < children.len() ==> is_function(#[trigger] children[i]),
    }
}

/// What the expression rules give are expressions.
pub proof fn expressions_are_expressions(ts: Seq<TokenView>, pos: nat)
    ensures
        expression_rule(ts, pos) matches Ok((tree, _)) ==> is_expression(tree),
        forall|name: Seq<char>|
            #![trigger call_rule(ts, pos, name)]
            call_rule(ts, pos, name) matches Ok((tree, _)) ==> is_expression(tree) && tree is Node
                && tree->op == (OperandView::Call { name }),
        expression_list_rule(ts, pos) matches Ok((items, _)) ==> forall|i: int|
            0 <= i < items.len() ==> is_expression(#[trigger] items[i]),
        expression_items_rule(ts, pos) matches Ok((items, _)) ==> forall|i: int|
            0 <= i < items.len() ==> is_expression(#[trigger] items[i]),
    decreases ts.len() - pos,
{
    if pos < ts.len() {
        expressions_are_expressions(ts, pos + 1);
        match identifier_at(ts, pos) {
            Some(name) => {
                assert(call_rule(ts, pos + 1, name) matches Ok((tree, _)) ==> is_expression(tree));
            },
            None => {},
        }
        lemma_expression_bounds(ts, pos);
        match expression_rule(ts, pos) {
            Ok((first, n)) => {
                if punctuator_at(ts, pos + n, Punctuator::Comma) {
                    expressions_are_expressions(ts, pos + n + 1);
                }
            },
            Err(_) => {},
        }
    }
}

/// What the statement rule gives is a statement.
pub proof fn statements_are_statements(ts: Seq<TokenView>, pos: nat)
    ensures
        statement_rule(ts, pos) matches Ok((tree, _)) ==> is_statement(tree),
{
    expressions_are_expressions(ts, pos + 1);
    expressions_are_expressions(ts, pos + 2);
    match identifier_at(ts, pos) {
        Some(name) => {
            assert(call_rule(ts, pos + 1, name) matches Ok((tree, _)) ==> is_expression(tree)
                && tree is Node && tree->op == (OperandView::Call { name }));
        },
        None => {},
    }
}

/// What the rule for a body gives is a block.
pub proof fn bodies_are_blocks(ts: Seq<TokenView>, pos: nat)
    ensures
        statements_rule(ts, pos) matches Ok((items, _)) ==> forall|i: int|
            0 <= i < items.len() ==> is_statement(#[trigger] items[i]),
        statement_list_rule(ts, pos) matches Ok((tree, _)) ==> is_block(tree),
    decreases ts.len() - pos,
{
    match statement_rule(ts, pos) {
        Ok((_, n)) => {
            lemma_statement_bounds(ts, pos);
            statements_are_statements(ts, pos);
            bodies_are_blocks(ts, pos + n);
        },
        Err(_) => {},
    }
}

/// What the rule for a function gives is a function.
pub proof fn declarations_are_functions(ts: Seq<TokenView>, pos: nat)
    ensures
        declaration_rule(ts, pos) matches Ok((tree, _)) ==> is_function(tree),
{
    match argument_list_rule(ts, pos + 5) {
        Ok((_, n)) => {
            bodies_are_blocks(ts, pos + 6 + n);
        },
        Err(_) => {},
    }
}

/// What the rule for a list of functions gives are functions.
pub proof fn lists_of_functions(ts: Seq<TokenView>, pos: nat)
    ensures
        declarations_rule(ts, pos) matches Ok(items) ==> forall|i: int|
            0 <= i < items.len() ==> is_function(#[trigger] items[i]),
    decreases ts.len() - pos,
{
    if pos < ts.len() {
        match declaration_rule(ts, pos) {
            Ok((_, n)) => {
                lemma_declaration_bounds(ts, pos);
                declarations_are_functions(ts, pos);
                lists_of_functions(ts, pos + n);
            },
            Err(_) => {},
        }
    }
}

/// The tree of a program has the shape of a program: under the root one
/// function for each function of the source, each with its block of
/// statements.
pub proof fn programs_are_programs(ts: Seq<TokenView>)
    ensures
        program_rule(ts) matches Ok(tree) ==> is_program(tree),
{
    lists_of_functions(ts, 0);
}

} // verus!
