//! A static archive generator for mailing lists: the verified core.
//!
//! Calendar arithmetic, text escaping, mbox and maildir reading,
//! configuration and command-line parsing, threading by subject, reply
//! links and mbox export, and the HTML, Gemini and Atom renderers. The
//! messages themselves are parsed by `mail_parser` (or `mailparse`) and
//! written by `mail_builder`; what those crates compute is named in
//! `message`, `builder` and `mbox_tool::email`.

pub mod text;
pub mod time;
pub mod util;
pub mod utils;
pub mod templates;
pub mod arg;
pub mod builder;
pub mod config;
pub mod filters;
pub mod mbox;
pub mod mbox_tool;
pub mod jwzthreading;
pub mod maildir;
pub mod models;
pub mod paths;
pub mod message;
pub mod sort;
pub mod threading;
