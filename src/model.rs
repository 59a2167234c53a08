use vstd::prelude::*;

verus! {

/// The platform a project is made for.
#[derive(Clone, Copy, Debug, PartialEq, Eq, Structural)]
pub enum Platform {
    Tiktok,
    YoutubeShorts,
    InstagramReels,
}

/// A project's name, creation time (RFC 3339) and platform.
pub struct ProjectMetadata {
    pub name: String,
    pub created_at: String,
    pub platform: Platform,
}

/// The output canvas of a project.
#[derive(Clone, Copy, Debug, PartialEq, Eq, Structural)]
pub struct Canvas {
    pub width: u32,
    pub height: u32,
    pub fps: u32,
    pub duration_ms: u64,
}

/// The kind of a timeline track.
#[derive(Clone, Copy, Debug, PartialEq, Eq, Structural)]
pub enum TrackType {
    Video,
    Telop,
    Audio,
}

/// A span of a source video placed on the timeline.
pub struct VideoClip {
    pub id: String,
    pub source: String,
    pub start_ms: u64,
    pub end_ms: u64,
    pub trim_start_ms: u64,
    pub trim_end_ms: u64,
}

/// A telop animation as a project refers to it.
pub struct TelopAnimation {
    pub animation_type: String,
    pub speed: Option<String>,
    pub delay_per_char_ms: Option<u64>,
    pub easing: Option<String>,
}

/// What an animation staggers over: each character or each word.
#[derive(Clone, Copy, Debug, PartialEq, Eq, Structural)]
pub enum AnimationUnit {
    Character,
    Word,
}

/// An extra audio track as a caller passes it to an export.
pub struct AudioSourceParam {
    pub path: String,
    pub start_ms: u64,
    pub end_ms: u64,
}

} // verus!
