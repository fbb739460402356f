//! A stateful HTTP client for the command line: the request being built, the
//! request/response history, the cookie jar, template interpolation, the
//! command-line grammar and the command runner, all verified.
pub mod bindings;
pub mod cli;
pub mod http;
pub mod json;
pub mod model;
pub mod session;
pub mod template;
pub mod text;
