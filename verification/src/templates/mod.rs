//! Renderers: HTML pages, Gemini pages and Atom feeds.

pub mod gmi;
pub mod html;
pub mod util;
pub mod xml;

use vstd::prelude::*;

verus! {

/// Threads shown on one page of a list.
pub const PAGE_SIZE: usize = 100;

} // verus!
