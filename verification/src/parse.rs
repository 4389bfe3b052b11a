//! The parser: from a sequence of tokens to a syntax tree.

use vstd::prelude::*;
use crate::tokenize::{Keyword, Punctuator, Token, TokenView, token_views};
use crate::shape::{is_program, programs_are_programs};
use crate::grammar::{
    failure, punctuator_at, keyword_at, identifier_at, constant_at, expression_rule, call_rule,
    expression_list_rule, expression_items_rule, lemma_expression_bounds, statement_rule,
    lemma_statement_bounds, statements_rule, statement_list_rule, parameters_rule,
    argument_list_rule, declaration_rule, lemma_declaration_bounds, declarations_rule,
    program_rule,
};

verus! {

/// What kind of construct a node of the tree is.
///
/// The grammar has rules for assignments, calls, blocks, functions and the
/// root only. The arithmetic operands, `If`, `Do` and `Expression` belong to
/// the vocabulary of the tree, but the parser gives no node that holds one.
#[derive(Debug, PartialEq)]
pub enum Operand {
    Add,
    Sub,
    Multiply,
    Division,
    Modulo,
    /// An assignment: the target, then the expression.
    Substitute,
    If,
    /// A call of the function `name`, with one child for each argument.
    Call { name: String },
    Do,
    Expression,
    /// A block of statements, in the order of the source.
    Statement,
    /// The root: one child for each function.
    Declare,
    /// A function with its parameters and the number of values it returns;
    /// its only child is its body.
    FunctionDeclare { name: String, args: Vec<String>, retnum: usize },
}

/// A node of the tree with its children, in the order of the source.
#[derive(Debug, PartialEq)]
pub struct Node {
    pub op: Operand,
    pub children: Vec<AST>,
}

/// A node without children.
#[derive(Debug, PartialEq)]
pub enum Leaf {
    Identifier(String),
    Constant(i32),
}

/// The syntax tree.
#[derive(Debug, PartialEq)]
pub enum AST {
    Node(Node),
    Leaf(Leaf),
}

/// An operand as a mathematical value.
pub enum OperandView {
    Add,
    Sub,
    Multiply,
    Division,
    Modulo,
    Substitute,
    If,
    Call { name: Seq<char> },
    Do,
    Expression,
    Statement,
    Declare,
    FunctionDeclare { name: Seq<char>, args: Seq<Seq<char>>, retnum: usize },
}

/// A leaf as a mathematical value.
pub enum LeafView {
    Identifier(Seq<char>),
    Constant(i32),
}

/// A syntax tree as a mathematical value.
pub enum Tree {
    Node { op: OperandView, children: Seq<Tree> },
    Leaf(LeafView),
}

/// The strings of `names` as sequences of characters.
pub open spec fn string_views(names: Seq<String>) -> Seq<Seq<char>> {
    Seq::new(names.len(), |i: int| names[i]@)
}

impl View for Operand {
    type V = OperandView;

    open spec fn view(&self) -> OperandView {
        match self {
            Operand::Add => OperandView::Add,
            Operand::Sub => OperandView::Sub,
            Operand::Multiply => OperandView::Multiply,
            Operand::Division => OperandView::Division,
            Operand::Modulo => OperandView::Modulo,
            Operand::Substitute => OperandView::Substitute,
            Operand::If => OperandView::If,
            Operand::Call { name } => OperandView::Call { name: name@ },
            Operand::Do => OperandView::Do,
            Operand::Expression => OperandView::Expression,
            Operand::Statement => OperandView::Statement,
            Operand::Declare => OperandView::Declare,
            Operand::FunctionDeclare { name, args, retnum } => OperandView::FunctionDeclare {
                name: name@,
                args: string_views(args@),
                retnum: *retnum,
            },
        }
    }
}

impl View for Leaf {
    type V = LeafView;

    open spec fn view(&self) -> LeafView {
        match self {
            Leaf::Identifier(name) => LeafView::Identifier(name@),
            Leaf::Constant(value) => LeafView::Constant(*value),
        }
    }
}

/// The trees of `children` as mathematical values.
pub open spec fn trees(children: Seq<AST>) -> Seq<Tree>
    decreases children,
{
    Seq::new(
        children.len(),
        |i: int|
            if 0 <= i < children.len() {
                children[i].view()
            } else {
                arbitrary()
            },
    )
}

impl View for AST {
    type V = Tree;

    open spec fn view(&self) -> Tree
        decreases self,
    {
        match self {
            AST::Node(node) => Tree::Node { op: node.op@, children: trees(node.children@) },
            AST::Leaf(leaf) => Tree::Leaf(leaf@),
        }
    }
}

impl View for Node {
    type V = Tree;

    open spec fn view(&self) -> Tree {
        Tree::Node { op: self.op@, children: trees(self.children@) }
    }
}

impl Clone for Leaf {
    fn clone(&self) -> (r: Self)
        ensures
            r@ == self@,
    {
        match self {
            Leaf::Identifier(name) => Leaf::Identifier(name.clone()),
            Leaf::Constant(value) => Leaf::Constant(*value),
        }
    }
}

/// A copy of `names`.
pub fn clone_names(names: &Vec<String>) -> (r: Vec<String>)
    ensures
        string_views(r@) == string_views(names@),
{
    let mut r: Vec<String> = Vec::new();
    let mut i: usize = 0;
    while i < names.len()
        invariant
            i <= names.len(),
            r@.len() == i,
            forall|j: int| 0 <= j < i ==> r@[j]@ == names@[j]@,
        decreases names.len() - i,
    {
        r.push(names[i].clone());
        i += 1;
    }
    proof {
        assert(string_views(r@) =~= string_views(names@));
    }
    r
}

impl Clone for Operand {
    fn clone(&self) -> (r: Self)
        ensures
            r@ == self@,
    {
        match self {
            Operand::Add => Operand::Add,
            Operand::Sub => Operand::Sub,
            Operand::Multiply => Operand::Multiply,
            Operand::Division => Operand::Division,
            Operand::Modulo => Operand::Modulo,
            Operand::Substitute => Operand::Substitute,
            Operand::If => Operand::If,
            Operand::Call { name } => Operand::Call { name: name.clone() },
            Operand::Do => Operand::Do,
            Operand::Expression => Operand::Expression,
            Operand::Statement => Operand::Statement,
            Operand::Declare => Operand::Declare,
            Operand::FunctionDeclare { name, args, retnum } => Operand::FunctionDeclare {
                name: name.clone(),
                args: clone_names(args),
                retnum: *retnum,
            },
        }
    }
}

impl Clone for AST {
    fn clone(&self) -> (r: Self)
        ensures
            r@ == self@,
        decreases self,
    {
        match self {
            AST::Leaf(leaf) => AST::Leaf(leaf.clone()),
            AST::Node(node) => {
                let mut children: Vec<AST> = Vec::new();
                let mut i: usize = 0;
                while i < node.children.len()
                    invariant
                        i <= node.children.len(),
                        self == AST::Node(*node),
                        children@.len() == i,
                        forall|j: int| 0 <= j < i ==> children@[j]@ == node.children@[j]@,
                    decreases node.children.len() - i,
                {
                    proof {
                        // the child is a part of this tree
                        assert(decreases_to!(*self => self->Node_0));
                        assert(decreases_to!(self->Node_0 => self->Node_0.children));
                        assert(decreases_to!(node.children => node.children@));
                        assert(decreases_to!(node.children@ => node.children@[i as int]));
                        assert(decreases_to!(self => node.children@[i as int]));
                    }
                    let child = node.children[i].clone();
                    children.push(child);
                    i += 1;
                }
                proof {
                    assert(trees(children@) =~= trees(node.children@));
                }
                AST::Node(Node { op: node.op.clone(), children })
            },
        }
    }
}

impl Clone for Node {
    fn clone(&self) -> (r: Self)
        ensures
            r@ == self@,
    {
        let mut children: Vec<AST> = Vec::new();
        let mut i: usize = 0;
        while i < self.children.len()
            invariant
                i <= self.children.len(),
                children@.len() == i,
                forall|j: int| 0 <= j < i ==> children@[j]@ == self.children@[j]@,
            decreases self.children.len() - i,
        {
            children.push(self.children[i].clone());
            i += 1;
        }
        proof {
            assert(trees(children@) =~= trees(self.children@));
        }
        Node { op: self.op.clone(), children }
    }
}

/// What a grammar rule was waiting for where it stopped.
#[derive(Debug, Clone, Copy, PartialEq, Eq, Structural)]
pub enum Expected {
    /// The keyword `fn`, which starts a function.
    KeywordFn,
    /// `[`, before the number of returned values.
    BracketLeft,
    /// The constant that gives the number of returned values.
    ReturnCount,
    /// `]`, after the number of returned values.
    BracketRight,
    /// An identifier.
    Identifier,
    /// `(`, which starts a list of parameters or of arguments.
    ParenthesisLeft,
    /// The first parameter, or `)` at once.
    IdentifierOrParenthesisRight,
    /// `,` before the next item of a list, or `)` at its end.
    CommaOrParenthesisRight,
    /// `{`, which starts a body.
    BraceLeft,
    /// `}`, which ends a body.
    BraceRight,
    /// `=` of an assignment, or `(` of a call.
    EqualOrParenthesisLeft,
    /// A constant or an identifier, which starts an expression.
    Expression,
    /// `;`, which ends a statement.
    SemiColon,
}

/// The first violation of the grammar in a sequence of tokens.
#[derive(Debug, PartialEq)]
pub enum ParseError {
    /// The token at `position` is none of those that the rule accepts there.
    UnexpectedToken { position: usize, expected: Expected, found: Token },
    /// The tokens end at `position`, where the rule needs one more.
    UnexpectedEndOfInput { position: usize, expected: Expected },
}

/// A violation of the grammar as a mathematical value.
pub enum ParseErrorView {
    UnexpectedToken { position: nat, expected: Expected, found: TokenView },
    UnexpectedEndOfInput { position: nat, expected: Expected },
}

impl View for ParseError {
    type V = ParseErrorView;

    open spec fn view(&self) -> ParseErrorView {
        match self {
            ParseError::UnexpectedToken { position, expected, found } => {
                ParseErrorView::UnexpectedToken {
                    position: *position as nat,
                    expected: *expected,
                    found: found@,
                }
            },
            ParseError::UnexpectedEndOfInput { position, expected } => {
                ParseErrorView::UnexpectedEndOfInput {
                    position: *position as nat,
                    expected: *expected,
                }
            },
        }
    }
}

impl Clone for ParseError {
    fn clone(&self) -> (r: Self)
        ensures
            r@ == self@,
    {
        match self {
            ParseError::UnexpectedToken { position, expected, found } => {
                ParseError::UnexpectedToken {
                    position: *position,
                    expected: *expected,
                    found: found.clone(),
                }
            },
            ParseError::UnexpectedEndOfInput { position, expected } => {
                ParseError::UnexpectedEndOfInput { position: *position, expected: *expected }
            },
        }
    }
}

/// A failed parse: the violation, and how many functions were parsed before
/// the one that holds it.
#[derive(Debug, PartialEq)]
pub struct ParseFailure {
    pub declarations: usize,
    pub error: ParseError,
}

/// A failed parse as a mathematical value.
pub struct ParseFailureModel {
    pub declarations: nat,
    pub error: ParseErrorView,
}

impl View for ParseFailure {
    type V = ParseFailureModel;

    open spec fn view(&self) -> ParseFailureModel {
        ParseFailureModel { declarations: self.declarations as nat, error: self.error@ }
    }
}

impl Clone for ParseFailure {
    fn clone(&self) -> (r: Self)
        ensures
            r@ == self@,
    {
        ParseFailure { declarations: self.declarations, error: self.error.clone() }
    }
}

/// The outcome of a rule that gives a tree, as a mathematical value.
pub open spec fn parsed_view(r: Result<(AST, usize), ParseError>) -> Result<
    (Tree, nat),
    ParseErrorView,
> {
    match r {
        Ok((tree, n)) => Ok((tree@, n as nat)),
        Err(e) => Err(e@),
    }
}

/// The outcome of a rule that gives a list of trees, as a mathematical
/// value.
pub open spec fn parsed_list_view(r: Result<(Vec<AST>, usize), ParseError>) -> Result<
    (Seq<Tree>, nat),
    ParseErrorView,
> {
    match r {
        Ok((list, n)) => Ok((trees(list@), n as nat)),
        Err(e) => Err(e@),
    }
}

/// The outcome of a rule that gives a list of names, as a mathematical
/// value.
pub open spec fn parsed_names_view(r: Result<(Vec<String>, usize), ParseError>) -> Result<
    (Seq<Seq<char>>, nat),
    ParseErrorView,
> {
    match r {
        Ok((names, n)) => Ok((string_views(names@), n as nat)),
        Err(e) => Err(e@),
    }
}

/// The outcome of parsing a program, as a mathematical value.
pub open spec fn program_view(r: Result<AST, ParseFailure>) -> Result<Tree, ParseFailureModel> {
    match r {
        Ok(tree) => Ok(tree@),
        Err(e) => Err(e@),
    }
}

/// Whether the token at `pos` is the symbol `p`.
pub fn is_punctuator(tokens: &[Token], pos: usize, p: Punctuator) -> (r: bool)
    ensures
        r == punctuator_at(token_views(tokens@), pos as nat, p),
{
    if pos < tokens.len() {
        match &tokens[pos] {
            Token::Punctuator(q) => *q == p,
            _ => false,
        }
    } else {
        false
    }
}

/// Whether the token at `pos` is the reserved word `k`.
pub fn is_keyword(tokens: &[Token], pos: usize, k: Keyword) -> (r: bool)
    ensures
        r == keyword_at(token_views(tokens@), pos as nat, k),
{
    if pos < tokens.len() {
        match &tokens[pos] {
            Token::Keyword(q) => *q == k,
            _ => false,
        }
    } else {
        false
    }
}

/// The name that the token at `pos` holds, where it is an identifier.
pub fn identifier(tokens: &[Token], pos: usize) -> (r: Option<String>)
    ensures
        match r {
            Some(name) => identifier_at(token_views(tokens@), pos as nat) == Some(name@),
            None => identifier_at(token_views(tokens@), pos as nat) is None,
        },
{
    if pos < tokens.len() {
        match &tokens[pos] {
            Token::Identifier(name) => Some(name.clone()),
            _ => None,
        }
    } else {
        None
    }
}

/// The value that the token at `pos` holds, where it is a constant.
pub fn constant(tokens: &[Token], pos: usize) -> (r: Option<i32>)
    ensures
        r == constant_at(token_views(tokens@), pos as nat),
{
    if pos < tokens.len() {
        match &tokens[pos] {
            Token::Constant(value) => Some(*value),
            _ => None,
        }
    } else {
        None
    }
}

/// The violation met at `pos` by a rule that was waiting for `expected`.
pub fn violation(tokens: &[Token], pos: usize, expected: Expected) -> (r: ParseError)
    ensures
        r@ == failure(token_views(tokens@), pos as nat, expected),
{
    if pos < tokens.len() {
        ParseError::UnexpectedToken { position: pos, expected, found: tokens[pos].clone() }
    } else {
        ParseError::UnexpectedEndOfInput { position: pos, expected }
    }
}

/// The items `done`, which took `taken` tokens, followed by what `rest`
/// adds to them.
pub open spec fn continued<T>(
    done: Seq<T>,
    taken: nat,
    rest: Result<(Seq<T>, nat), ParseErrorView>,
) -> Result<(Seq<T>, nat), ParseErrorView> {
    match rest {
        Ok((more, n)) => Ok((done + more, taken + n)),
        Err(e) => Err(e),
    }
}

/// Parses an expression at `pos`: a constant, an identifier, or a call.
pub fn expression(tokens: &[Token], pos: usize) -> (r: Result<(AST, usize), ParseError>)
    ensures
        parsed_view(r) == expression_rule(token_views(tokens@), pos as nat),
        r matches Ok((_, n)) ==> 1 <= n && pos + n <= tokens.len(),
    decreases tokens.len() - pos, 0nat,
{
    proof {
        lemma_expression_bounds(token_views(tokens@), pos as nat);
    }
    match constant(tokens, pos) {
        Some(value) => Ok((AST::Leaf(Leaf::Constant(value)), 1)),
        None => match identifier(tokens, pos) {
            Some(name) => {
                if is_punctuator(tokens, pos + 1, Punctuator::ParenthesisLeft) {
                    match call(tokens, pos + 1, name) {
                        Ok((ast, seek)) => Ok((ast, seek + 1)),
                        Err(e) => Err(e),
                    }
                } else {
                    Ok((AST::Leaf(Leaf::Identifier(name)), 1))
                }
            },
            None => Err(violation(tokens, pos, Expected::Expression)),
        },
    }
}

/// Parses the arguments of a call of `funcname`, from the `(` at `pos` to
/// the matching `)`.
pub fn call(tokens: &[Token], pos: usize, funcname: String) -> (r: Result<
    (AST, usize),
    ParseError,
>)
    ensures
        parsed_view(r) == call_rule(token_views(tokens@), pos as nat, funcname@),
        r matches Ok((_, n)) ==> 2 <= n && pos + n <= tokens.len(),
    decreases tokens.len() - pos, 0nat,
{
    proof {
        lemma_expression_bounds(token_views(tokens@), pos as nat);
    }
    if !is_punctuator(tokens, pos, Punctuator::ParenthesisLeft) {
        return Err(violation(tokens, pos, Expected::ParenthesisLeft));
    }
    match expression_list(tokens, pos + 1) {
        Ok((expressions, seek)) => Ok(
            (
                AST::Node(Node { op: Operand::Call { name: funcname }, children: expressions }),
                seek + 2,
            ),
        ),
        Err(e) => Err(e),
    }
}

/// Parses expressions separated by commas, from `pos` up to a `)`, which it
/// leaves in place.
pub fn expression_list(tokens: &[Token], pos: usize) -> (r: Result<(Vec<AST>, usize), ParseError>)
    ensures
        parsed_list_view(r) == expression_list_rule(token_views(tokens@), pos as nat),
        r matches Ok((_, n)) ==> pos + n < tokens.len(),
    decreases tokens.len() - pos, 2nat,
{
    let ghost ts = token_views(tokens@);
    let mut res: Vec<AST> = Vec::new();
    if is_punctuator(tokens, pos, Punctuator::ParenthesisRight) {
        assert(trees(res@) =~= Seq::<Tree>::empty());
        return Ok((res, 0));
    }
    let mut offset: usize = 0;
    proof {
        assert(trees(res@) =~= Seq::<Tree>::empty());
        match expression_items_rule(ts, pos as nat) {
            Ok((more, n)) => {
                assert(Seq::<Tree>::empty() + more =~= more);
            },
            Err(e) => {},
        }
    }
    loop
        invariant
            ts == token_views(tokens@),
            offset == 0 || pos + offset <= tokens.len(),
            expression_list_rule(ts, pos as nat) == continued(
                trees(res@),
                offset as nat,
                expression_items_rule(ts, (pos + offset) as nat),
            ),
        decreases tokens.len() - (pos + offset),
    {
        proof {
            lemma_expression_bounds(ts, (pos + offset) as nat);
        }
        match expression(tokens, pos + offset) {
            Err(e) => {
                return Err(e);
            },
            Ok((exp, seek)) => {
                let ghost before = trees(res@);
                let ghost first = exp@;
                res.push(exp);
                offset += seek;
                proof {
                    assert(trees(res@) =~= before + seq![first]);
                }
                if is_punctuator(tokens, pos + offset, Punctuator::ParenthesisRight) {
                    return Ok((res, offset));
                } else if is_punctuator(tokens, pos + offset, Punctuator::Comma) {
                    proof {
                        match expression_items_rule(ts, (pos + offset + 1) as nat) {
                            Ok((more, m)) => {
                                assert(before + (seq![first] + more) =~= (before + seq![first])
                                    + more);
                            },
                            Err(e) => {},
                        }
                    }
                    offset += 1;
                } else {
                    return Err(violation(tokens, pos + offset, Expected::CommaOrParenthesisRight));
                }
            },
        }
    }
}

/// Parses a statement at `pos`: an assignment or a call, each ended by `;`.
pub fn statement(tokens: &[Token], pos: usize) -> (r: Result<(AST, usize), ParseError>)
    ensures
        parsed_view(r) == statement_rule(token_views(tokens@), pos as nat),
        r matches Ok((_, n)) ==> 4 <= n && pos + n <= tokens.len(),
{
    proof {
        lemma_statement_bounds(token_views(tokens@), pos as nat);
    }
    let left = match identifier(tokens, pos) {
        Some(name) => name,
        None => {
            return Err(violation(tokens, pos, Expected::Identifier));
        },
    };
    assert(pos < tokens.len());
    if is_punctuator(tokens, pos + 1, Punctuator::Equal) {
        match expression(tokens, pos + 2) {
            Err(e) => Err(e),
            Ok((exp, seek)) => {
                if !is_punctuator(tokens, pos + 2 + seek, Punctuator::SemiColon) {
                    return Err(violation(tokens, pos + 2 + seek, Expected::SemiColon));
                }
                let ghost target = Tree::Leaf(LeafView::Identifier(left@));
                let ghost value = exp@;
                let mut children: Vec<AST> = Vec::new();
                children.push(AST::Leaf(Leaf::Identifier(left)));
                children.push(exp);
                proof {
                    assert(trees(children@) =~= seq![target, value]);
                }
                Ok((AST::Node(Node { op: Operand::Substitute, children }), seek + 3))
            },
        }
    } else if is_punctuator(tokens, pos + 1, Punctuator::ParenthesisLeft) {
        match call(tokens, pos + 1, left) {
            Err(e) => Err(e),
            Ok((node, seek)) => {
                if !is_punctuator(tokens, pos + 1 + seek, Punctuator::SemiColon) {
                    return Err(violation(tokens, pos + 1 + seek, Expected::SemiColon));
                }
                Ok((node, seek + 2))
            },
        }
    } else {
        Err(violation(tokens, pos + 1, Expected::EqualOrParenthesisLeft))
    }
}

/// Parses statements from `pos` up to a `}`, which it leaves in place, and
/// gives them as one block.
pub fn statement_list(tokens: &[Token], pos: usize) -> (r: Result<(AST, usize), ParseError>)
    ensures
        parsed_view(r) == statement_list_rule(token_views(tokens@), pos as nat),
        r matches Ok((_, n)) ==> pos + n < tokens.len(),
{
    let ghost ts = token_views(tokens@);
    let mut children: Vec<AST> = Vec::new();
    let mut offset: usize = 0;
    proof {
        assert(trees(children@) =~= Seq::<Tree>::empty());
        match statements_rule(ts, pos as nat) {
            Ok((more, n)) => {
                assert(Seq::<Tree>::empty() + more =~= more);
            },
            Err(e) => {},
        }
    }
    while !is_punctuator(tokens, pos + offset, Punctuator::BraceRight)
        invariant
            ts == token_views(tokens@),
            offset == 0 || pos + offset <= tokens.len(),
            pos + offset <= usize::MAX,
            statements_rule(ts, pos as nat) == continued(
                trees(children@),
                offset as nat,
                statements_rule(ts, (pos + offset) as nat),
            ),
        decreases tokens.len() - (pos + offset),
    {
        match statement(tokens, pos + offset) {
            Err(e) => {
                return Err(e);
            },
            Ok((stm, seek)) => {
                proof {
                    let before = trees(children@);
                    assert(trees(children@.push(stm)) =~= before + seq![stm@]);
                    match statements_rule(ts, (pos + offset + seek) as nat) {
                        Ok((more, m)) => {
                            assert(before + (seq![stm@] + more) =~= (before + seq![stm@]) + more);
                        },
                        Err(e) => {},
                    }
                }
                children.push(stm);
                offset += seek;
            },
        }
    }
    proof {
        assert(trees(children@) + Seq::<Tree>::empty() =~= trees(children@));
    }
    Ok((AST::Node(Node { op: Operand::Statement, children }), offset))
}

/// Parses the parameters of a function, from the `(` at `pos` to the `)`
/// that ends them.
pub fn argument_list(tokens: &[Token], pos: usize) -> (r: Result<(Vec<String>, usize), ParseError>)
    ensures
        parsed_names_view(r) == argument_list_rule(token_views(tokens@), pos as nat),
        r matches Ok((_, n)) ==> 2 <= n && pos + n <= tokens.len(),
{
    let ghost ts = token_views(tokens@);
    if !is_punctuator(tokens, pos, Punctuator::ParenthesisLeft) {
        return Err(violation(tokens, pos, Expected::ParenthesisLeft));
    }
    let mut res: Vec<String> = Vec::new();
    let mut len: usize = 1;
    let mut first = true;
    proof {
        assert(string_views(res@) =~= Seq::<Seq<char>>::empty());
        match parameters_rule(ts, (pos + 1) as nat, true) {
            Ok((more, n)) => {
                assert(Seq::<Seq<char>>::empty() + more =~= more);
            },
            Err(e) => {},
        }
    }
    loop
        invariant
            ts == token_views(tokens@),
            1 <= len,
            pos + len <= tokens.len(),
            argument_list_rule(ts, pos as nat) == continued(
                string_views(res@),
                len as nat,
                parameters_rule(ts, (pos + len) as nat, first),
            ),
        decreases tokens.len() - (pos + len),
    {
        if first && is_punctuator(tokens, pos + len, Punctuator::ParenthesisRight) {
            proof {
                assert(string_views(res@) + Seq::<Seq<char>>::empty() =~= string_views(res@));
            }
            return Ok((res, len + 1));
        }
        match identifier(tokens, pos + len) {
            None => {
                let expected = if first {
                    Expected::IdentifierOrParenthesisRight
                } else {
                    Expected::Identifier
                };
                return Err(violation(tokens, pos + len, expected));
            },
            Some(name) => {
                let ghost before = string_views(res@);
                let ghost added = name@;
                res.push(name);
                proof {
                    assert(string_views(res@) =~= before + seq![added]);
                }
                if is_punctuator(tokens, pos + len + 1, Punctuator::ParenthesisRight) {
                    return Ok((res, len + 2));
                } else if is_punctuator(tokens, pos + len + 1, Punctuator::Comma) {
                    proof {
                        match parameters_rule(ts, (pos + len + 2) as nat, false) {
                            Ok((more, m)) => {
                                assert(before + (seq![added] + more) =~= (before + seq![added])
                                    + more);
                            },
                            Err(e) => {},
                        }
                    }
                    len += 2;
                    first = false;
                } else {
                    return Err(
                        violation(tokens, pos + len + 1, Expected::CommaOrParenthesisRight),
                    );
                }
            },
        }
    }
}

/// Parses a function at `pos`:
/// `fn [ constant ] name ( parameters ) { statements }`.
pub fn declaration(tokens: &[Token], pos: usize) -> (r: Result<(AST, usize), ParseError>)
    ensures
        parsed_view(r) == declaration_rule(token_views(tokens@), pos as nat),
        r matches Ok((_, n)) ==> 9 <= n && pos + n <= tokens.len(),
{
    proof {
        lemma_declaration_bounds(token_views(tokens@), pos as nat);
    }
    if !is_keyword(tokens, pos, Keyword::FN) {
        return Err(violation(tokens, pos, Expected::KeywordFn));
    }
    assert(pos < tokens.len());
    if !is_punctuator(tokens, pos + 1, Punctuator::BracketLeft) {
        return Err(violation(tokens, pos + 1, Expected::BracketLeft));
    }
    let retnum = match constant(tokens, pos + 2) {
        Some(value) => value,
        None => {
            return Err(violation(tokens, pos + 2, Expected::ReturnCount));
        },
    };
    if !is_punctuator(tokens, pos + 3, Punctuator::BracketRight) {
        return Err(violation(tokens, pos + 3, Expected::BracketRight));
    }
    let name = match identifier(tokens, pos + 4) {
        Some(name) => name,
        None => {
            return Err(violation(tokens, pos + 4, Expected::Identifier));
        },
    };
    let (args, seek) = match argument_list(tokens, pos + 5) {
        Ok(found) => found,
        Err(e) => {
            return Err(e);
        },
    };
    if !is_punctuator(tokens, pos + 5 + seek, Punctuator::BraceLeft) {
        return Err(violation(tokens, pos + 5 + seek, Expected::BraceLeft));
    }
    let (statements, seek2) = match statement_list(tokens, pos + 6 + seek) {
        Ok(found) => found,
        Err(e) => {
            return Err(e);
        },
    };
    if !is_punctuator(tokens, pos + 6 + seek + seek2, Punctuator::BraceRight) {
        return Err(violation(tokens, pos + 6 + seek + seek2, Expected::BraceRight));
    }
    let ghost body = statements@;
    let mut children: Vec<AST> = Vec::new();
    children.push(statements);
    proof {
        assert(trees(children@) =~= seq![body]);
    }
    let res = AST::Node(
        Node { op: Operand::FunctionDeclare { name, args, retnum: #[verifier::truncate] (retnum as usize) }, children },
    );
    Ok((res, seek + seek2 + 7))
}

/// The functions `done`, followed by what `rest` adds to them; a failure in
/// `rest` counts the functions of `done` too.
pub open spec fn counted(done: Seq<Tree>, rest: Result<Seq<Tree>, ParseFailureModel>) -> Result<
    Seq<Tree>,
    ParseFailureModel,
> {
    match rest {
        Ok(more) => Ok(done + more),
        Err(e) => Err(
            ParseFailureModel { declarations: done.len() + e.declarations, error: e.error },
        ),
    }
}

/// The outcome of a rule that gives the functions of a program, as a
/// mathematical value.
pub open spec fn parsed_functions_view(r: Result<Vec<AST>, ParseFailure>) -> Result<
    Seq<Tree>,
    ParseFailureModel,
> {
    match r {
        Ok(list) => Ok(trees(list@)),
        Err(e) => Err(e@),
    }
}

/// Parses functions from `pos` to the end of the tokens. The first function
/// that violates the grammar fails them all.
pub fn declarations(tokens: &[Token], pos: usize) -> (r: Result<Vec<AST>, ParseFailure>)
    ensures
        parsed_functions_view(r) == declarations_rule(token_views(tokens@), pos as nat),
{
    let ghost ts = token_views(tokens@);
    let mut res: Vec<AST> = Vec::new();
    let mut at: usize = pos;
    proof {
        assert(trees(res@) =~= Seq::<Tree>::empty());
        match declarations_rule(ts, pos as nat) {
            Ok(more) => {
                assert(Seq::<Tree>::empty() + more =~= more);
            },
            Err(e) => {},
        }
    }
    while at < tokens.len()
        invariant
            ts == token_views(tokens@),
            pos <= at,
            res.len() <= at,
            declarations_rule(ts, pos as nat) == counted(
                trees(res@),
                declarations_rule(ts, at as nat),
            ),
        decreases tokens.len() - at,
    {
        match declaration(tokens, at) {
            Err(error) => {
                return Err(ParseFailure { declarations: res.len(), error });
            },
            Ok((ast, seek)) => {
                proof {
                    let before = trees(res@);
                    assert(trees(res@.push(ast)) =~= before + seq![ast@]);
                    match declarations_rule(ts, (at + seek) as nat) {
                        Ok(more) => {
                            assert(before + (seq![ast@] + more) =~= (before + seq![ast@]) + more);
                        },
                        Err(e) => {},
                    }
                }
                res.push(ast);
                at += seek;
            },
        }
    }
    proof {
        assert(trees(res@) + Seq::<Tree>::empty() =~= trees(res@));
    }
    Ok(res)
}

/// Parses a program: functions, one after the other, to the end of the
/// tokens. The tree has one root, with one child for each function.
pub fn parse(tokens: &[Token]) -> (r: Result<AST, ParseFailure>)
    ensures
        program_view(r) == program_rule(token_views(tokens@)),
        r matches Ok(tree) ==> is_program(tree@),
{
    proof {
        programs_are_programs(token_views(tokens@));
    }
    match declarations(tokens, 0) {
        Ok(children) => Ok(AST::Node(Node { op: Operand::Declare, children })),
        Err(e) => Err(e),
    }
}

} // verus!
