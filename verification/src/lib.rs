//! Tiny quantitative type theory checker.
pub mod diagnostics;
pub mod driver;
pub mod elab;
pub mod errors;
pub mod eval;
pub mod lexer;
pub mod mult;
pub mod normal;
pub mod parse;
pub mod pretty;
pub mod repl;
pub mod syntax;
pub mod text;
pub mod value;

pub use driver::check_str;
pub use errors::{TinyQttError, TinyQttResult};
