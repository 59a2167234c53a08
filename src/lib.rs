// Verified core of a telop (timed text overlay) video pipeline: subtitle parsing,
// cue timing, frame buffers, colors, export validation and audio remux arguments.
use vstd::prelude::*;

pub mod base64;
pub mod beat;
pub mod cache;
pub mod color;
pub mod frame;
pub mod media;
pub mod model;
pub mod preset;
pub mod remux;
pub mod srt;
pub mod text;
pub mod timing;
pub mod validate;

verus! {

} // verus!
