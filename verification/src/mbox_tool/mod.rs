//! The mbox-driven archive tool: each message of an mbox read into an
//! `Email` with `mailparse`, and the template filter it renders ages with.

pub mod dates;
pub mod email;
pub mod filters;
