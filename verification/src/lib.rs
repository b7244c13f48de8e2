//! A small lazy functional language in the manner of Haskell.
//!
//! A text is parsed from its tokens into abstract syntax (`parser`), its
//! types are inferred (`typecheck`, with `inference`, `unify`, `scope`,
//! `substitution`, `environment` and `modules`), and compiled code is run on a
//! graph-reduction machine (`vm`). Each part is stated as a function on
//! mathematical models, and the code is proved to compute that function.
pub mod compiler;
pub mod environment;
pub mod equality;
pub mod graph;
pub mod inference;
pub mod lexer;
pub mod module;
pub mod modules;
pub mod parser;
pub mod scope;
pub mod substitution;
pub mod tables;
pub mod typecheck;
pub mod unify;
pub mod vm;
