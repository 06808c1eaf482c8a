//! A small expression-oriented language: tokens, lexer, parser, a tree-walking
//! evaluator with lexically scoped closures, and a compiler to stack-machine
//! bytecode.
//!
//! The library is in four layers.
//!
//! - The text: [`token`], [`lexer`], [`source`], [`text`].
//! - The tree: [`ast`], [`nodes`], the [`grammar`] that says which tokens
//!   spell which tree, the [`parser`] that builds it, and the [`printer`]
//!   that writes it back.
//! - The evaluator: [`object`], [`dictionary`], [`env`], the [`semantics`]
//!   that say what a tree is worth, and the [`evaluation`] that computes it.
//! - The compiler: [`bytecode`], the [`compilation`] that says which
//!   instructions a tree becomes, the [`emitter`] that emits them, and the
//!   [`machine`] that says what they do, by their number and, in [`wire`],
//!   by their bytes.
//!
//! What holds of all of it is proved in modules of their own: parsing moves
//! forward ([`progress`]), builds well formed trees ([`wellformed`]), groups
//! operators by precedence and to the left ([`grouping`]) and undoes
//! printing ([`roundtrip`]); closures never lose their scope ([`closures`]);
//! and on the programs that both support ([`subset`]) the evaluator and the
//! compiler agree ([`layout`], [`valuation`], [`equivalence`]).

pub mod token;
pub mod lexer;
pub mod source;
pub mod text;
pub mod ast;
pub mod nodes;
pub mod grammar;
pub mod parser;
pub mod printer;
pub mod progress;
pub mod wellformed;
pub mod grouping;
pub mod roundtrip;
pub mod object;
pub mod dictionary;
pub mod env;
pub mod semantics;
pub mod evaluation;
pub mod closures;
pub mod bytecode;
pub mod compilation;
pub mod emitter;
pub mod machine;
pub mod wire;
pub mod subset;
pub mod layout;
pub mod valuation;
pub mod equivalence;
