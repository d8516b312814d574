//! Index and search over slash-delimited secret identifiers, together with
//! the single-flight bookkeeping that reconciles remote operations with a
//! foreground loop.
use vstd::prelude::*;

pub mod search;
pub mod text;
pub mod tree;
pub mod errors;
pub mod content;
pub mod dispatch;
pub mod identity;
pub mod app;
pub mod config;

verus! {

} // verus!
