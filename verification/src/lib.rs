//! A small language of integer arithmetic and `let` bindings: scanning,
//! parsing and evaluation, each with a machine-checked contract.
//!
//! ```text
//! binding := "let" WS+ ident WS* "=" WS* expr
//! expr    := number WS* op WS* number | number
//! number  := digit+
//! op      := "+" | "-" | "*" | "/"
//! ident   := letter alnum*
//! WS      := " "
//! ```
//!
//! Every parser takes the unread text and gives back what it read together
//! with the text that is left, or an [`Error`] that says what it was looking
//! for. Nothing in the library aborts on bad input: numbers too large for 32
//! bits and divisions by zero are errors, and other arithmetic wraps around.

pub mod binding;
pub mod env;
pub mod error;
pub mod expr;
pub mod utils;
pub mod val;

pub use binding::Binding;
pub use env::Env;
pub use error::{Error, Expected};
pub use expr::{Expr, Number, Op};
pub use val::Val;
