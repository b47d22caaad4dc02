//! A parser for tabletop-RPG dice notation ("OneRoll" style, e.g. `3d6+2`,
//! `4d6k3`, `1d20;2d4 # hit`).
//!
//! The crate turns an input string into a typed abstract syntax tree
//! (`Expression`), in two stages:
//! * a recognizer that matches the dice grammar and produces a typed
//!   parse tree (`ParseNode`), and
//! * an AST builder that walks that tree and assembles the `Expression`,
//!   resolving modifiers, numeric literals and comments.
//!
//! Every function is verified and pinned exactly by a spec-level mirror
//! of its logic: `parse_expression` returns precisely the build of the
//! parse tree that `spec_recognize` assigns to the input, a syntax error
//! exactly when the input does not match the grammar, and no function
//! panics.

pub mod ast;
pub mod tree;
pub mod num;
pub mod text;
pub mod builder;
pub mod lexer;

pub use ast::DiceModifier;
pub use ast::DiceRoll;
pub use ast::Expression;
pub use ast::DiceError;
pub use ast::IntField;
pub use builder::DiceParser;
pub use lexer::recognize;
pub use tree::ParseNode;
pub use tree::RuleTag;
