use vstd::prelude::*;

verus! {

/// Output frame size in pixels.
pub struct Resolution {
    pub width: u32,
    pub height: u32,
}

/// Margins, in pixels, that a platform's own interface covers.
pub struct SafeZones {
    pub top_px: u32,
    pub bottom_px: u32,
    pub right_px: u32,
}

/// What a target platform expects of an exported video.
pub struct ExportPreset {
    pub platform: String,
    pub display_name: String,
    pub resolution: Resolution,
    pub aspect_ratio: String,
    pub max_duration_sec: u64,
    pub recommended_duration_sec: Option<u64>,
    pub fps: u32,
    pub codec: String,
    pub audio_codec: String,
    pub audio_sample_rate: u32,
    pub max_file_size_mb: u32,
    pub bitrate_kbps: u32,
    pub safe_zones: SafeZones,
}

impl ExportPreset {
    /// The encoder's bit rate in bits per second: the preset's kilobits times 1000.
    pub fn bitrate_bps(&self) -> (r: u64)
        ensures
            r == self.bitrate_kbps as u64 * 1000,
    {
        self.bitrate_kbps as u64 * 1000
    }
}

} // verus!
