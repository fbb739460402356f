//! The command line: the command grammar, the parser, what is printed, and
//! the state machine that runs a parsed command list.
pub mod commands;
pub mod display;
pub mod exchange;
pub mod parser;
pub mod runner;

pub use commands::{Command, GlobalFlags, ParseResult, ResponseTarget, ResponseView};
pub use display::{format_curl, format_size, format_status};
pub use parser::parse_args;
