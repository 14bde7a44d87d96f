//! Front end and embedding contract for a Lisp-like scripting language.
//!
//! Structured input arrives as a flat sequence of tokens, is parsed into an
//! expression tree, and is written back out as source text for the embedded
//! interpreter. The interpreter itself is driven from outside the library;
//! the library decides what is asked of it and what its answers mean.

pub mod ast;
pub mod literal;
pub mod token;
pub mod parser;
pub mod serialize;
pub mod laws;
pub mod embed;
pub mod janet;
pub mod shared;

pub use ast::{ExprV, JanetExpr, JanetLiteral, LitV};
pub use token::{Delim, Token, TokenV};
pub use literal::parse_integer;
pub use parser::{parse, ParseError, ParseErrorKind};
pub use laws::{lemma_balanced, lemma_round_trip};
pub use janet::{eval_outcome, EvalRequest, InitLatch, Janet, JanetRuntime, JanetTable, RuntimeError};
pub use shared::{eval_shared, lemma_shared_handle_persists, with_shared_runtime};
pub use embed::structured_source;
