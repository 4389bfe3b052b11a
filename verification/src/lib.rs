//! Front end of a small procedural language: a tokenizer that turns source
//! text into a flat sequence of tokens, and a recursive-descent parser that
//! turns that sequence into a syntax tree.
//!
//! Every executable function carries a contract that ties its result to a
//! mathematical description of the language: `lexis` says what the tokens of
//! a text are, `grammar` says what tree a sequence of tokens stands for.
//! The other modules prove what follows from these descriptions: `shape`
//! says which children each node has, `writing` and `reading` that the
//! grammar accepts exactly the writings of well-shaped trees.

pub mod unicode;
pub mod lexis;
pub mod tokenize;
pub mod lexical_theorems;
pub mod grammar;
pub mod parse;
pub mod shape;
pub mod grammar_theorems;
pub mod writing;
pub mod reading;
