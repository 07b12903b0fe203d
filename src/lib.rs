//! A small stack-oriented interpreter for a Lisp-shaped language whose only
//! datum is a byte string. Source text is parsed into atoms and lists, and
//! a list is run as a call against an operand stack and a table of
//! definitions. Every step of evaluation is specified by `machine`, and the
//! executable interpreter is proved to follow it.

pub mod builtin;
pub mod builtins;
pub mod bytes;
pub mod error;
pub mod interp;
pub mod machine;
pub mod parser;
pub mod text;
pub mod uint;
pub mod value;
