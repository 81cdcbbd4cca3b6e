//! Olympus: a schema-driven RPC framework.
//!
//! The crate holds the interface-definition language front end (lexer,
//! parser, semantic verifier, code generator), the wire codec, and the
//! decisions of the dispatch runtime. Every function carries a contract
//! that Verus proves.

pub mod fnv;
pub mod spanned;
pub mod text;
pub mod token;
pub mod lexer;
pub mod cursor;
pub mod ast;
pub mod parser;
pub mod checks;
pub mod naming;
pub mod generator;
pub mod compile;
pub mod buffer;
pub mod codec;
pub mod varint;
pub mod wire;
pub mod models;
pub mod dispatch;
