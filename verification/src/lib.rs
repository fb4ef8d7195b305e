//! A typed command-line flag registry and parser.
//!
//! A program declares named flags with a kind, a description and a default,
//! hands the registry its argument list, and reads the flags back as typed
//! values through the handles that registration returned.

pub mod args;
pub mod decimal;
pub mod flag;
pub mod flags;
pub mod laws;
pub mod model;
pub mod text;

pub use args::{Arg, ArgView, Args};
pub use flag::{Flag, FlagKind, FlagValue, FlagView};
pub use flags::{FlagError, Flags};
