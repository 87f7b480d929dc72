//! A command-line framework in the style of Go's Cobra: completion results,
//! shell-specific completion formatting, flag contexts, argument validation,
//! "did you mean" suggestions and terminal text layout, with their behaviour
//! stated as Verus contracts.

pub mod text;
pub mod suggestion;
pub mod terminal;
pub mod color;
pub mod error;
pub mod validator;
pub mod context;
pub mod active_help;
pub mod completion;
pub mod completion_item;
pub mod completion_optimized;
pub mod completion_format;
pub mod completion_cache;
pub mod string_pool;
pub mod flag;
pub mod parse_optimized;
pub mod command;
pub mod help;
pub mod shell;
pub mod completion_timeout;
