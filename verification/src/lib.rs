//! A compile-time XML template engine, maud-inspired: escaping, the `Markup`
//! buffer, the `Render` trait, and the template language's parser and code
//! generator, over token trees held as plain values.

pub mod ast;
pub mod capacity;
pub mod chars;
pub mod codegen;
pub mod escape;
pub mod grammar;
pub mod markup;
pub mod output;
pub mod parse;
pub mod pre_escaped;
pub mod render;
pub mod run;
pub mod semantics;
pub mod strings;
pub mod structure;
pub mod token;
pub mod unescape;
pub mod wellformed;
pub mod xml;

pub use codegen::{expand, generate, Program, Stmt, StmtArm};
pub use grammar::ErrorKind;
pub use markup::Markup;
pub use parse::{ParseError, Parser};
pub use pre_escaped::PreEscaped;
pub use render::Render;
pub use run::Eval;
pub use token::{Delimiter, TokenTree};
