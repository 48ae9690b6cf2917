//! Frame scheduling and window batching for playing a rectangle-list video
//! on a fixed pool of desktop windows.
use vstd::prelude::*;

pub mod frames;
pub mod slot;
pub mod pool;
pub mod scheduler;

verus! {

/// Number of windows in the pool created at startup.
pub const MAX_WINDOWS: usize = 155;

/// Width of the logical canvas that frame rectangles are expressed in.
pub const BASE_WIDTH: u8 = 64;

/// Height of the logical canvas that frame rectangles are expressed in.
pub const BASE_HEIGHT: u8 = 48;

/// Rate of the audio clock in ticks per second; each video frame lasts one tick.
pub const TICKS_PER_SECOND: u64 = 30;

} // verus!
