//! Observable vectors and a window-limiting view over their diff streams.
//!
//! - `diff`: the diff algebra and how each diff changes a sequence.
//! - `observable`: a vector that broadcasts its changes to subscribers, with
//!   a bounded backlog that collapses into a `Reset` when a subscriber lags.
//! - `limit`: how one diff, or one change of the limit, becomes the diffs of
//!   the view truncated to the limit.
//! - `stream`: the limiting combinator as a state machine that a driver polls.
//! - `laws`: what holds of the combinator over whole runs of inputs.
use vstd::prelude::*;

pub mod diff;
pub mod limit;
pub mod stream;
pub mod laws;
pub mod observable;

verus! {

} // verus!
