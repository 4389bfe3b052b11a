//! How a tree is written as tokens, and that the grammar reads back what
//! was written: the rules accept the writing of every well-shaped tree, and
//! give that tree.

use vstd::prelude::*;
use crate::tokenize::{Keyword, Punctuator, TokenView};
use crate::parse::{LeafView, OperandView, ParseErrorView, ParseFailureModel, Tree};
use crate::shape::{is_expression, is_statement, is_function, is_program};
use crate::grammar::{
    punctuator_at, expression_rule, expression_items_rule, statement_rule, statements_rule,
    declaration_rule, declarations_rule, program_rule,
};
use crate::grammar_theorems::{
    reads, written_leaf, written_list, identifiers, parameters_are_read_back,
};

verus! {

/// The token of a symbol.
pub open spec fn symbol(p: Punctuator) -> TokenView {
    TokenView::Punctuator(p)
}

/// How an expression is written: a leaf as its token, a call as the name,
/// `(`, the arguments with a comma between each two, and `)`.
pub open spec fn written_expression(t: Tree) -> Seq<TokenView>
    decreases t, 0nat,
{
    match t {
        Tree::Leaf(leaf) => seq![written_leaf(leaf)],
        Tree::Node { op, children } => match op {
            OperandView::Call { name } => seq![
                TokenView::Identifier(name),
                symbol(Punctuator::ParenthesisLeft),
            ] + written_arguments(children, 0) + seq![symbol(Punctuator::ParenthesisRight)],
            _ => Seq::empty(),
        },
    }
}

/// How the arguments from the `k`-th on are written, with a comma between
/// each two.
pub open spec fn written_arguments(items: Seq<Tree>, k: nat) -> Seq<TokenView>
    decreases items, items.len() - k,
{
    if k >= items.len() {
        Seq::empty()
    } else if k + 1 == items.len() {
        written_expression(items[k as int])
    } else {
        written_expression(items[k as int]) + seq![symbol(Punctuator::Comma)] + written_arguments(
            items,
            k + 1,
        )
    }
}

/// Each token of what the tokens start with is in its place.
pub proof fn token_read(ts: Seq<TokenView>, pos: nat, written: Seq<TokenView>, i: nat)
    requires
        reads(ts, pos, written),
        i < written.len(),
    ensures
        pos + i < ts.len(),
        ts[(pos + i) as int] == written[i as int],
{
}

/// Tokens that start with two pieces start with the first, and go on with
/// the second.
pub proof fn reads_both(ts: Seq<TokenView>, pos: nat, a: Seq<TokenView>, b: Seq<TokenView>)
    ensures
        reads(ts, pos, a + b) <==> reads(ts, pos, a) && reads(ts, pos + a.len(), b),
{
    if reads(ts, pos, a + b) {
        assert forall|i: int| 0 <= i < a.len() implies ts[pos + i] == #[trigger] a[i] by {
            assert((a + b)[i] == a[i]);
        }
        assert forall|i: int| 0 <= i < b.len() implies ts[pos + a.len() + i] == #[trigger] b[i] by {
            assert((a + b)[a.len() + i] == b[i]);
        }
    }
    if reads(ts, pos, a) && reads(ts, pos + a.len(), b) {
        assert forall|i: int| 0 <= i < (a + b).len() implies ts[pos + i] == #[trigger] (a + b)[i] by {
            if i >= a.len() {
                assert((a + b)[i] == b[i - a.len()]);
            }
        }
    }
}

/// A written expression starts with a constant or an identifier.
pub proof fn written_expression_starts(t: Tree)
    requires
        is_expression(t),
    ensures
        written_expression(t).len() >= 1,
        written_expression(t)[0] is Constant || written_expression(t)[0] is Identifier,
{
    match t {
        Tree::Leaf(leaf) => {},
        Tree::Node { op, children } => {
            let head = seq![
                TokenView::Identifier(op->Call_name),
                symbol(Punctuator::ParenthesisLeft),
            ];
            assert((head + written_arguments(children, 0) + seq![
                symbol(Punctuator::ParenthesisRight),
            ])[0] == head[0]);
        },
    }
}

/// What is written is read back, for expressions: where the tokens from
/// `pos` on are the writing of an expression, and no `(` follows a lone
/// identifier, the rule gives that expression and takes that writing.
pub proof fn expression_is_read_back(ts: Seq<TokenView>, pos: nat, t: Tree)
    requires
        is_expression(t),
        reads(ts, pos, written_expression(t)),
        t is Leaf && t->Leaf_0 is Identifier ==> !punctuator_at(
            ts,
            pos + 1,
            Punctuator::ParenthesisLeft,
        ),
    ensures
        expression_rule(ts, pos) == Ok::<(Tree, nat), ParseErrorView>(
            (t, written_expression(t).len()),
        ),
    decreases t, 0nat,
{
    let w = written_expression(t);
    match t {
        Tree::Leaf(leaf) => {
            token_read(ts, pos, w, 0);
        },
        Tree::Node { op, children } => {
            let name = op->Call_name;
            let head = seq![TokenView::Identifier(name), symbol(Punctuator::ParenthesisLeft)];
            let middle = written_arguments(children, 0);
            let close = seq![symbol(Punctuator::ParenthesisRight)];
            reads_both(ts, pos, head + middle, close);
            reads_both(ts, pos, head, middle);
            token_read(ts, pos, head, 0);
            token_read(ts, pos, head, 1);
            token_read(ts, pos + 2 + middle.len(), close, 0);
            if children.len() == 0 {
                assert(children =~= Seq::<Tree>::empty());
            } else {
                reads_both(ts, pos + 2, middle, close);
                arguments_are_read_back(ts, pos + 2, children, 0);
                assert(children.skip(0) =~= children);
                arguments_start(children, 0);
                token_read(ts, pos + 2, middle, 0);
            }
        },
    }
}

/// Written arguments start with a constant or an identifier.
pub proof fn arguments_start(items: Seq<Tree>, k: nat)
    requires
        forall|i: int| 0 <= i < items.len() ==> is_expression(#[trigger] items[i]),
        k < items.len(),
    ensures
        written_arguments(items, k).len() >= 1,
        written_arguments(items, k)[0] is Constant || written_arguments(items, k)[0] is Identifier,
{
    written_expression_starts(items[k as int]);
    if k + 1 < items.len() {
        let first = written_expression(items[k as int]);
        assert((first + seq![symbol(Punctuator::Comma)] + written_arguments(items, k + 1))[0]
            == first[0]);
    }
}

/// What is written is read back, for the arguments from the `k`-th on,
/// where `)` follows them.
pub proof fn arguments_are_read_back(ts: Seq<TokenView>, pos: nat, items: Seq<Tree>, k: nat)
    requires
        forall|i: int| 0 <= i < items.len() ==> is_expression(#[trigger] items[i]),
        k < items.len(),
        reads(ts, pos, written_arguments(items, k) + seq![symbol(Punctuator::ParenthesisRight)]),
    ensures
        expression_items_rule(ts, pos) == Ok::<(Seq<Tree>, nat), ParseErrorView>(
            (items.skip(k as int), written_arguments(items, k).len()),
        ),
    decreases items, items.len() - k,
{
    let close = seq![symbol(Punctuator::ParenthesisRight)];
    let first = written_expression(items[k as int]);
    written_expression_starts(items[k as int]);
    if k + 1 == items.len() {
        reads_both(ts, pos, first, close);
        token_read(ts, pos + first.len(), close, 0);
        expression_is_read_back(ts, pos, items[k as int]);
        assert(items.skip(k as int) =~= seq![items[k as int]]);
    } else {
        let comma = seq![symbol(Punctuator::Comma)];
        let rest = written_arguments(items, k + 1);
        reads_both(ts, pos, first + comma + rest, close);
        reads_both(ts, pos, first + comma, rest);
        reads_both(ts, pos, first, comma);
        token_read(ts, pos + first.len(), comma, 0);
        expression_is_read_back(ts, pos, items[k as int]);
        reads_both(ts, pos + first.len() + 1, rest, close);
        arguments_are_read_back(ts, pos + first.len() + 1, items, k + 1);
        assert(items.skip(k as int) =~= seq![items[k as int]] + items.skip(k + 1 as int));
    }
}

/// How a statement is written: an assignment as the target, `=`, the
/// expression and `;`, a call as the call and `;`.
pub open spec fn written_statement(t: Tree) -> Seq<TokenView> {
    match t {
        Tree::Leaf(_) => Seq::empty(),
        Tree::Node { op, children } => match op {
            OperandView::Substitute => seq![
                written_leaf(children[0]->Leaf_0),
                symbol(Punctuator::Equal),
            ] + written_expression(children[1]) + seq![symbol(Punctuator::SemiColon)],
            OperandView::Call { .. } => written_expression(t) + seq![
                symbol(Punctuator::SemiColon),
            ],
            _ => Seq::empty(),
        },
    }
}

/// How the statements from the `k`-th on are written, one after the other.
pub open spec fn written_statements(items: Seq<Tree>, k: nat) -> Seq<TokenView>
    decreases items.len() - k,
{
    if k >= items.len() {
        Seq::empty()
    } else {
        written_statement(items[k as int]) + written_statements(items, k + 1)
    }
}

/// A written statement starts with an identifier.
pub proof fn written_statement_starts(t: Tree)
    requires
        is_statement(t),
    ensures
        written_statement(t).len() >= 1,
        written_statement(t)[0] is Identifier,
{
    let w = written_statement(t);
    let semi = seq![symbol(Punctuator::SemiColon)];
    if t->op is Substitute {
        let head = seq![written_leaf(t->children[0]->Leaf_0), symbol(Punctuator::Equal)];
        assert(w[0] == head[0]);
    } else {
        let call = written_expression(t);
        let head = seq![
            TokenView::Identifier(t->op->Call_name),
            symbol(Punctuator::ParenthesisLeft),
        ];
        assert(call[0] == head[0]);
        assert(w[0] == call[0]);
    }
}

/// What is written is read back, for statements.
pub proof fn statement_is_read_back(ts: Seq<TokenView>, pos: nat, t: Tree)
    requires
        is_statement(t),
        reads(ts, pos, written_statement(t)),
    ensures
        statement_rule(ts, pos) == Ok::<(Tree, nat), ParseErrorView>(
            (t, written_statement(t).len()),
        ),
{
    let semi = seq![symbol(Punctuator::SemiColon)];
    let children = t->children;
    if t->op is Substitute {
        let name = children[0]->Leaf_0->Identifier_0;
        let head = seq![TokenView::Identifier(name), symbol(Punctuator::Equal)];
        let value = written_expression(children[1]);
        reads_both(ts, pos, head + value, semi);
        reads_both(ts, pos, head, value);
        token_read(ts, pos, head, 0);
        token_read(ts, pos, head, 1);
        token_read(ts, pos + 2 + value.len(), semi, 0);
        written_expression_starts(children[1]);
        expression_is_read_back(ts, pos + 2, children[1]);
        assert(children =~= seq![Tree::Leaf(LeafView::Identifier(name)), children[1]]);
    } else {
        let name = t->op->Call_name;
        let call = written_expression(t);
        let head = seq![TokenView::Identifier(name), symbol(Punctuator::ParenthesisLeft)];
        let tail = written_arguments(children, 0) + seq![symbol(Punctuator::ParenthesisRight)];
        assert(call =~= head + tail);
        reads_both(ts, pos, call, semi);
        reads_both(ts, pos, head, tail);
        token_read(ts, pos, head, 0);
        token_read(ts, pos, head, 1);
        token_read(ts, pos + call.len(), semi, 0);
        expression_is_read_back(ts, pos, t);
    }
}

/// What is written is read back, for the statements from the `k`-th on,
/// where `}` follows them.
pub proof fn statements_are_read_back(ts: Seq<TokenView>, pos: nat, items: Seq<Tree>, k: nat)
    requires
        forall|i: int| 0 <= i < items.len() ==> is_statement(#[trigger] items[i]),
        k <= items.len(),
        reads(ts, pos, written_statements(items, k) + seq![symbol(Punctuator::BraceRight)]),
    ensures
        statements_rule(ts, pos) == Ok::<(Seq<Tree>, nat), ParseErrorView>(
            (items.skip(k as int), written_statements(items, k).len()),
        ),
    decreases items.len() - k,
{
    let close = seq![symbol(Punctuator::BraceRight)];
    if k == items.len() {
        reads_both(ts, pos, written_statements(items, k), close);
        token_read(ts, pos, close, 0);
        assert(items.skip(k as int) =~= Seq::<Tree>::empty());
    } else {
        let first = written_statement(items[k as int]);
        let rest = written_statements(items, k + 1);
        written_statement_starts(items[k as int]);
        reads_both(ts, pos, first + rest, close);
        reads_both(ts, pos, first, rest);
        token_read(ts, pos, first, 0);
        statement_is_read_back(ts, pos, items[k as int]);
        reads_both(ts, pos + first.len(), rest, close);
        statements_are_read_back(ts, pos + first.len(), items, k + 1);
        assert(items.skip(k as int) =~= seq![items[k as int]] + items.skip(k + 1 as int));
    }
}

/// How a function is written: `fn`, the number of returned values in
/// brackets, the name, the parameters in parentheses and the statements of
/// the body in braces.
pub open spec fn written_function(t: Tree) -> Seq<TokenView> {
    match t {
        Tree::Node { op: OperandView::FunctionDeclare { name, args, retnum }, children } => seq![
            TokenView::Keyword(Keyword::FN),
            symbol(Punctuator::BracketLeft),
            TokenView::Constant(retnum as i32),
            symbol(Punctuator::BracketRight),
            TokenView::Identifier(name),
        ] + written_list(identifiers(args)) + seq![symbol(Punctuator::BraceLeft)]
            + written_statements(children[0]->children, 0) + seq![symbol(Punctuator::BraceRight)],
        _ => Seq::empty(),
    }
}

/// How the functions from the `k`-th on are written, one after the other.
pub open spec fn written_functions(items: Seq<Tree>, k: nat) -> Seq<TokenView>
    decreases items.len() - k,
{
    if k >= items.len() {
        Seq::empty()
    } else {
        written_function(items[k as int]) + written_functions(items, k + 1)
    }
}

/// How a program is written: its functions, one after the other.
pub open spec fn written_program(t: Tree) -> Seq<TokenView> {
    match t {
        Tree::Node { op, children } => written_functions(children, 0),
        Tree::Leaf(_) => Seq::empty(),
    }
}

/// Whether the function `t` returns a number of values that a constant can
/// write.
pub open spec fn has_written_count(t: Tree) -> bool {
    t is Node && t->op is FunctionDeclare && t->op->retnum <= 0x7fff_ffff
}

/// What is written is read back, for functions.
pub proof fn function_is_read_back(ts: Seq<TokenView>, pos: nat, t: Tree)
    requires
        is_function(t),
        has_written_count(t),
        reads(ts, pos, written_function(t)),
    ensures
        declaration_rule(ts, pos) == Ok::<(Tree, nat), ParseErrorView>(
            (t, written_function(t).len()),
        ),
        written_function(t).len() >= 9,
{
    let name = t->op->FunctionDeclare_name;
    let args = t->op->args;
    let retnum = t->op->retnum;
    let statements = t->children[0]->children;
    let head = seq![
        TokenView::Keyword(Keyword::FN),
        symbol(Punctuator::BracketLeft),
        TokenView::Constant(retnum as i32),
        symbol(Punctuator::BracketRight),
        TokenView::Identifier(name),
    ];
    let list = written_list(identifiers(args));
    let open = seq![symbol(Punctuator::BraceLeft)];
    let body = written_statements(statements, 0);
    let close = seq![symbol(Punctuator::BraceRight)];
    reads_both(ts, pos, head + list + open + body, close);
    reads_both(ts, pos, head + list + open, body);
    reads_both(ts, pos, head + list, open);
    reads_both(ts, pos, head, list);
    token_read(ts, pos, head, 0);
    token_read(ts, pos, head, 1);
    token_read(ts, pos, head, 2);
    token_read(ts, pos, head, 3);
    token_read(ts, pos, head, 4);
    parameters_are_read_back(ts, pos + 5, args);
    token_read(ts, pos + 5 + list.len(), open, 0);
    reads_both(ts, pos + 6 + list.len(), body, close);
    statements_are_read_back(ts, pos + 6 + list.len(), statements, 0);
    token_read(ts, pos + 6 + list.len() + body.len(), close, 0);
    assert(statements.skip(0) =~= statements);
    assert(t->children =~= seq![t->children[0]]);
}

/// What is written is read back, for the functions from the `k`-th on,
/// where the tokens end after them.
pub proof fn functions_are_read_back(ts: Seq<TokenView>, pos: nat, items: Seq<Tree>, k: nat)
    requires
        forall|i: int|
            0 <= i < items.len() ==> is_function(#[trigger] items[i]) && has_written_count(
                items[i],
            ),
        k <= items.len(),
        reads(ts, pos, written_functions(items, k)),
        pos + written_functions(items, k).len() == ts.len(),
    ensures
        declarations_rule(ts, pos) == Ok::<Seq<Tree>, ParseFailureModel>(
            items.skip(k as int),
        ),
    decreases items.len() - k,
{
    if k == items.len() {
        assert(items.skip(k as int) =~= Seq::<Tree>::empty());
    } else {
        let first = written_function(items[k as int]);
        let rest = written_functions(items, k + 1);
        reads_both(ts, pos, first, rest);
        function_is_read_back(ts, pos, items[k as int]);
        functions_are_read_back(ts, pos + first.len(), items, k + 1);
        assert(items.skip(k as int) =~= seq![items[k as int]] + items.skip(k + 1 as int));
    }
}

/// What is written is read back: the writing of a program, whose functions
/// return numbers of values that constants can write, is parsed to that
/// program.
pub proof fn program_is_read_back(t: Tree)
    requires
        is_program(t),
        forall|i: int| 0 <= i < t->children.len() ==> has_written_count(#[trigger] t->children[i]),
    ensures
        program_rule(written_program(t)) == Ok::<Tree, ParseFailureModel>(t),
{
    let ts = written_program(t);
    functions_are_read_back(ts, 0, t->children, 0);
    assert(t->children.skip(0) =~= t->children);
}

} // verus!
