//! Turning a long video into AI-selected short clips: the chunk planner, the
//! credential pool, the per-chunk upload/poll/analyse protocol, the chunk
//! dispatcher and the session store, each with its contract proved.

use vstd::prelude::*;

pub mod text;
pub mod chunks;
pub mod timestamp;
pub mod types;
pub mod rebase;
pub mod pool;
pub mod provider;
pub mod pipeline;
pub mod codec;
pub mod media;
pub mod layout;
pub mod config;
pub mod template;
pub mod cropdetect;
pub mod subtitles;

verus! {

} // verus!
