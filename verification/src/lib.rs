//! Recovery of browsing-session data: a decoder for the compressed
//! session-store container, a parser for the session document, an extractor
//! for tab groups, a selection model, a multi-format link renderer, and the
//! file pipeline state machine that drives them.

pub mod bytes_util;
pub mod codec;
pub mod groups;
pub mod output;
pub mod parser;
pub mod pipeline;
pub mod render;
pub mod selection;
pub mod session;

use vstd::prelude::*;

verus! {

} // verus!
