//! Front end of a small integer language: lexing, parsing, and lowering of
//! the syntax tree into a three-address control-flow graph.
//!
//! The way from text to graph:
//!
//! - [`lex`] turns text into tokens, and [`parse`] turns tokens into the
//!   syntax tree of [`ast`]; [`grammar`] shows that parsing undoes writing.
//! - [`lower`] walks the tree and appends labels, instructions and
//!   terminators to the translation vector of [`tv`], making names with
//!   [`names`]; [`cfg`] groups the vector into the blocks of [`tir`].
//! - [`shape`], [`fresh`], [`declared`] and [`graph`] show what holds of
//!   every vector and every graph that comes out.
//!
//! Names are [`ident::Id`]s; sets of them and maps from them are in
//! [`idset`] and [`blockmap`].

pub mod ident;
pub mod names;
pub mod ast;
pub mod idset;
pub mod blockmap;
pub mod tir;
pub mod tv;
pub mod cfg;
pub mod shape;
pub mod lower;
pub mod fresh;
pub mod declared;
pub mod graph;
pub mod lex;
pub mod parse;
pub mod grammar;
