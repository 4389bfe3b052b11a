//! What tree a sequence of tokens stands for: the grammar of the language as
//! mathematical functions. Each rule reads the tokens from a position on and
//! gives what it recognised together with the number of tokens it took, or
//! the first violation it met. A rule looks one token ahead and never goes
//! back; the first violation fails the whole input.
//!
//! An expression is a constant, an identifier or a call: the grammar has no
//! rule for arithmetic, and `a = b + 1;` is a violation at `+`.

use vstd::prelude::*;
use crate::tokenize::{Keyword, Punctuator, TokenView};
use crate::parse::{Expected, LeafView, OperandView, ParseErrorView, ParseFailureModel, Tree};

verus! {

/// The violation met at `pos` by a rule that was waiting for `expected`: a
/// wrong token where there is one, the end of the input where there is none.
pub open spec fn failure(ts: Seq<TokenView>, pos: nat, expected: Expected) -> ParseErrorView {
    if pos < ts.len() {
        ParseErrorView::UnexpectedToken { position: pos, expected, found: ts[pos as int] }
    } else {
        ParseErrorView::UnexpectedEndOfInput { position: pos, expected }
    }
}

/// Whether the token at `pos` is the symbol `p`.
pub open spec fn punctuator_at(ts: Seq<TokenView>, pos: nat, p: Punctuator) -> bool {
    pos < ts.len() && ts[pos as int] == TokenView::Punctuator(p)
}

/// Whether the token at `pos` is the reserved word `k`.
pub open spec fn keyword_at(ts: Seq<TokenView>, pos: nat, k: Keyword) -> bool {
    pos < ts.len() && ts[pos as int] == TokenView::Keyword(k)
}

/// The name that the token at `pos` holds, where it is an identifier.
pub open spec fn identifier_at(ts: Seq<TokenView>, pos: nat) -> Option<Seq<char>> {
    if pos < ts.len() {
        match ts[pos as int] {
            TokenView::Identifier(name) => Some(name),
            _ => None,
        }
    } else {
        None
    }
}

/// The value that the token at `pos` holds, where it is a constant.
pub open spec fn constant_at(ts: Seq<TokenView>, pos: nat) -> Option<i32> {
    if pos < ts.len() {
        match ts[pos as int] {
            TokenView::Constant(value) => Some(value),
            _ => None,
        }
    } else {
        None
    }
}

/// An expression: a constant, an identifier, or, where `(` follows the
/// identifier, a call.
pub open spec fn expression_rule(ts: Seq<TokenView>, pos: nat) -> Result<
    (Tree, nat),
    ParseErrorView,
>
    decreases ts.len() - pos, 0nat,
{
    match (constant_at(ts, pos), identifier_at(ts, pos)) {
        (Some(value), _) => Ok((Tree::Leaf(LeafView::Constant(value)), 1)),
        (None, Some(name)) => {
            if punctuator_at(ts, pos + 1, Punctuator::ParenthesisLeft) {
                match call_rule(ts, pos + 1, name) {
                    Ok((call, n)) => Ok((call, n + 1)),
                    Err(e) => Err(e),
                }
            } else {
                Ok((Tree::Leaf(LeafView::Identifier(name)), 1))
            }
        },
        (None, None) => Err(failure(ts, pos, Expected::Expression)),
    }
}

/// The arguments of a call of `name`, from `(` to `)`.
pub open spec fn call_rule(ts: Seq<TokenView>, pos: nat, name: Seq<char>) -> Result<
    (Tree, nat),
    ParseErrorView,
>
    decreases ts.len() - pos, 0nat,
{
    if !punctuator_at(ts, pos, Punctuator::ParenthesisLeft) {
        Err(failure(ts, pos, Expected::ParenthesisLeft))
    } else {
        match expression_list_rule(ts, pos + 1) {
            Ok((arguments, n)) => Ok(
                (Tree::Node { op: OperandView::Call { name }, children: arguments }, n + 2),
            ),
            Err(e) => Err(e),
        }
    }
}

/// Expressions separated by commas, up to a `)` that the rule leaves in
/// place. There may be none; there is no comma after the last.
pub open spec fn expression_list_rule(ts: Seq<TokenView>, pos: nat) -> Result<
    (Seq<Tree>, nat),
    ParseErrorView,
>
    decreases ts.len() - pos, 2nat,
{
    if punctuator_at(ts, pos, Punctuator::ParenthesisRight) {
        Ok((Seq::empty(), 0))
    } else {
        expression_items_rule(ts, pos)
    }
}

/// One expression or more, separated by commas, up to a `)` that the rule
/// leaves in place.
pub open spec fn expression_items_rule(ts: Seq<TokenView>, pos: nat) -> Result<
    (Seq<Tree>, nat),
    ParseErrorView,
>
    decreases ts.len() - pos, 1nat,
{
    match expression_rule(ts, pos) {
        Err(e) => Err(e),
        Ok((first, n)) => {
            if punctuator_at(ts, pos + n, Punctuator::ParenthesisRight) {
                Ok((seq![first], n))
            } else if punctuator_at(ts, pos + n, Punctuator::Comma) {
                match expression_items_rule(ts, pos + n + 1) {
                    Ok((rest, m)) => Ok((seq![first] + rest, n + 1 + m)),
                    Err(e) => Err(e),
                }
            } else {
                Err(failure(ts, pos + n, Expected::CommaOrParenthesisRight))
            }
        },
    }
}

/// An expression, a call and a list of expressions end within the input; an
/// expression takes at least one token, a call at least two, and after a
/// list comes `)`.
pub proof fn lemma_expression_bounds(ts: Seq<TokenView>, pos: nat)
    ensures
        expression_rule(ts, pos) matches Ok((_, n)) ==> 1 <= n && pos + n <= ts.len(),
        forall|name: Seq<char>|
            #![trigger call_rule(ts, pos, name)]
            call_rule(ts, pos, name) matches Ok((_, n)) ==> 2 <= n && pos + n <= ts.len()
                && punctuator_at(ts, (pos + n - 1) as nat, Punctuator::ParenthesisRight),
        expression_list_rule(ts, pos) matches Ok((_, n)) ==> punctuator_at(
            ts,
            pos + n,
            Punctuator::ParenthesisRight,
        ),
        expression_items_rule(ts, pos) matches Ok((_, n)) ==> 1 <= n && punctuator_at(
            ts,
            pos + n,
            Punctuator::ParenthesisRight,
        ),
    decreases ts.len() - pos,
{
    if pos < ts.len() {
        lemma_expression_bounds(ts, pos + 1);
        match (constant_at(ts, pos), identifier_at(ts, pos)) {
            (None, Some(name)) => {
                if punctuator_at(ts, pos + 1, Punctuator::ParenthesisLeft) {
                    assert(call_rule(ts, pos + 1, name) matches Ok((_, n)) ==> 2 <= n && pos + 1
                        + n <= ts.len());
                }
            },
            _ => {},
        }
        match expression_rule(ts, pos) {
            Ok((_, n)) => {
                if punctuator_at(ts, pos + n, Punctuator::Comma) {
                    lemma_expression_bounds(ts, pos + n + 1);
                }
            },
            Err(_) => {},
        }
    }
}

/// A statement: an assignment `name = expression ;` or a call
/// `name ( arguments ) ;`. The token after the name decides which.
pub open spec fn statement_rule(ts: Seq<TokenView>, pos: nat) -> Result<
    (Tree, nat),
    ParseErrorView,
> {
    match identifier_at(ts, pos) {
        None => Err(failure(ts, pos, Expected::Identifier)),
        Some(name) => {
            if punctuator_at(ts, pos + 1, Punctuator::Equal) {
                match expression_rule(ts, pos + 2) {
                    Err(e) => Err(e),
                    Ok((value, n)) => {
                        if punctuator_at(ts, pos + 2 + n, Punctuator::SemiColon) {
                            Ok(
                                (
                                    Tree::Node {
                                        op: OperandView::Substitute,
                                        children: seq![
                                            Tree::Leaf(LeafView::Identifier(name)),
                                            value,
                                        ],
                                    },
                                    n + 3,
                                ),
                            )
                        } else {
                            Err(failure(ts, pos + 2 + n, Expected::SemiColon))
                        }
                    },
                }
            } else if punctuator_at(ts, pos + 1, Punctuator::ParenthesisLeft) {
                match call_rule(ts, pos + 1, name) {
                    Err(e) => Err(e),
                    Ok((call, n)) => {
                        if punctuator_at(ts, pos + 1 + n, Punctuator::SemiColon) {
                            Ok((call, n + 2))
                        } else {
                            Err(failure(ts, pos + 1 + n, Expected::SemiColon))
                        }
                    },
                }
            } else {
                Err(failure(ts, pos + 1, Expected::EqualOrParenthesisLeft))
            }
        },
    }
}

/// A statement takes at least four tokens, ends within the input, and its
/// last token is `;`.
pub proof fn lemma_statement_bounds(ts: Seq<TokenView>, pos: nat)
    ensures
        statement_rule(ts, pos) matches Ok((_, n)) ==> 4 <= n && pos + n <= ts.len()
            && punctuator_at(ts, (pos + n - 1) as nat, Punctuator::SemiColon),
{
    lemma_expression_bounds(ts, pos + 2);
    lemma_expression_bounds(ts, pos + 1);
}

/// Statements up to a `}` that the rule leaves in place. There may be none.
pub open spec fn statements_rule(ts: Seq<TokenView>, pos: nat) -> Result<
    (Seq<Tree>, nat),
    ParseErrorView,
>
    decreases ts.len() - pos,
{
    if punctuator_at(ts, pos, Punctuator::BraceRight) {
        Ok((Seq::empty(), 0))
    } else {
        match statement_rule(ts, pos) {
            Err(e) => Err(e),
            Ok((first, n)) => {
                proof {
                    lemma_statement_bounds(ts, pos);
                }
                match statements_rule(ts, pos + n) {
                    Ok((rest, m)) => Ok((seq![first] + rest, n + m)),
                    Err(e) => Err(e),
                }
            },
        }
    }
}

/// The body of a function: its statements, in order, as one block.
pub open spec fn statement_list_rule(ts: Seq<TokenView>, pos: nat) -> Result<
    (Tree, nat),
    ParseErrorView,
> {
    match statements_rule(ts, pos) {
        Ok((statements, n)) => Ok(
            (Tree::Node { op: OperandView::Statement, children: statements }, n),
        ),
        Err(e) => Err(e),
    }
}

/// After a list of statements comes `}`, within the input.
pub proof fn lemma_statements_bounds(ts: Seq<TokenView>, pos: nat)
    ensures
        statements_rule(ts, pos) matches Ok((_, n)) ==> punctuator_at(
            ts,
            pos + n,
            Punctuator::BraceRight,
        ),
    decreases ts.len() - pos,
{
    if !punctuator_at(ts, pos, Punctuator::BraceRight) {
        match statement_rule(ts, pos) {
            Ok((_, n)) => {
                lemma_statement_bounds(ts, pos);
                lemma_statements_bounds(ts, pos + n);
            },
            Err(_) => {},
        }
    }
}

/// Names separated by commas, up to the `)` that ends the list of
/// parameters and that the rule takes. Only where `first` is set may the
/// `)` come at once: there is no comma after the last name.
pub open spec fn parameters_rule(ts: Seq<TokenView>, pos: nat, first: bool) -> Result<
    (Seq<Seq<char>>, nat),
    ParseErrorView,
>
    decreases ts.len() - pos,
{
    if first && punctuator_at(ts, pos, Punctuator::ParenthesisRight) {
        Ok((Seq::empty(), 1))
    } else {
        match identifier_at(ts, pos) {
            None => Err(
                failure(
                    ts,
                    pos,
                    if first {
                        Expected::IdentifierOrParenthesisRight
                    } else {
                        Expected::Identifier
                    },
                ),
            ),
            Some(name) => {
                if punctuator_at(ts, pos + 1, Punctuator::ParenthesisRight) {
                    Ok((seq![name], 2))
                } else if punctuator_at(ts, pos + 1, Punctuator::Comma) {
                    match parameters_rule(ts, pos + 2, false) {
                        Ok((rest, n)) => Ok((seq![name] + rest, n + 2)),
                        Err(e) => Err(e),
                    }
                } else {
                    Err(failure(ts, pos + 1, Expected::CommaOrParenthesisRight))
                }
            },
        }
    }
}

/// The parameters of a function: `( name , name , ... )`, possibly none.
pub open spec fn argument_list_rule(ts: Seq<TokenView>, pos: nat) -> Result<
    (Seq<Seq<char>>, nat),
    ParseErrorView,
> {
    if !punctuator_at(ts, pos, Punctuator::ParenthesisLeft) {
        Err(failure(ts, pos, Expected::ParenthesisLeft))
    } else {
        match parameters_rule(ts, pos + 1, true) {
            Ok((names, n)) => Ok((names, n + 1)),
            Err(e) => Err(e),
        }
    }
}

/// A function: `fn [ constant ] name ( parameters ) { statements }`. The
/// constant is the number of values that the function returns.
pub open spec fn declaration_rule(ts: Seq<TokenView>, pos: nat) -> Result<
    (Tree, nat),
    ParseErrorView,
> {
    if !keyword_at(ts, pos, Keyword::FN) {
        Err(failure(ts, pos, Expected::KeywordFn))
    } else if !punctuator_at(ts, pos + 1, Punctuator::BracketLeft) {
        Err(failure(ts, pos + 1, Expected::BracketLeft))
    } else if constant_at(ts, pos + 2) is None {
        Err(failure(ts, pos + 2, Expected::ReturnCount))
    } else if !punctuator_at(ts, pos + 3, Punctuator::BracketRight) {
        Err(failure(ts, pos + 3, Expected::BracketRight))
    } else if identifier_at(ts, pos + 4) is None {
        Err(failure(ts, pos + 4, Expected::Identifier))
    } else {
        match argument_list_rule(ts, pos + 5) {
            Err(e) => Err(e),
            Ok((args, n)) => {
                if !punctuator_at(ts, pos + 5 + n, Punctuator::BraceLeft) {
                    Err(failure(ts, pos + 5 + n, Expected::BraceLeft))
                } else {
                    match statement_list_rule(ts, pos + 6 + n) {
                        Err(e) => Err(e),
                        Ok((body, m)) => {
                            if !punctuator_at(ts, pos + 6 + n + m, Punctuator::BraceRight) {
                                Err(failure(ts, pos + 6 + n + m, Expected::BraceRight))
                            } else {
                                Ok(
                                    (
                                        Tree::Node {
                                            op: OperandView::FunctionDeclare {
                                                name: identifier_at(ts, pos + 4)->Some_0,
                                                args,
                                                retnum: constant_at(ts, pos + 2)->Some_0 as usize,
                                            },
                                            children: seq![body],
                                        },
                                        n + m + 7,
                                    ),
                                )
                            }
                        },
                    }
                }
            },
        }
    }
}

/// A function takes at least nine tokens, ends within the input, and its
/// last token is `}`.
pub proof fn lemma_declaration_bounds(ts: Seq<TokenView>, pos: nat)
    ensures
        declaration_rule(ts, pos) matches Ok((_, n)) ==> 9 <= n && pos + n <= ts.len()
            && punctuator_at(ts, (pos + n - 1) as nat, Punctuator::BraceRight),
{
    lemma_parameters_bounds(ts, pos + 6, true);
}

/// A list of parameters takes at least one token, ends within the input,
/// and its last token is `)`.
pub proof fn lemma_parameters_bounds(ts: Seq<TokenView>, pos: nat, first: bool)
    ensures
        parameters_rule(ts, pos, first) matches Ok((_, n)) ==> 1 <= n && pos + n <= ts.len()
            && punctuator_at(ts, (pos + n - 1) as nat, Punctuator::ParenthesisRight),
    decreases ts.len() - pos,
{
    if pos + 1 < ts.len() {
        lemma_parameters_bounds(ts, pos + 2, false);
    }
}

/// Functions up to the end of the input, or the first violation with the
/// number of functions before the one that holds it.
pub open spec fn declarations_rule(ts: Seq<TokenView>, pos: nat) -> Result<
    Seq<Tree>,
    ParseFailureModel,
>
    decreases ts.len() - pos,
{
    if pos >= ts.len() {
        Ok(Seq::empty())
    } else {
        match declaration_rule(ts, pos) {
            Err(error) => Err(ParseFailureModel { declarations: 0, error }),
            Ok((first, n)) => {
                proof {
                    lemma_declaration_bounds(ts, pos);
                }
                match declarations_rule(ts, pos + n) {
                    Ok(rest) => Ok(seq![first] + rest),
                    Err(e) => Err(
                        ParseFailureModel { declarations: e.declarations + 1, error: e.error },
                    ),
                }
            },
        }
    }
}

/// A program: its functions, in order, under one root.
pub open spec fn program_rule(ts: Seq<TokenView>) -> Result<Tree, ParseFailureModel> {
    match declarations_rule(ts, 0) {
        Ok(functions) => Ok(Tree::Node { op: OperandView::Declare, children: functions }),
        Err(e) => Err(e),
    }
}

} // verus!
