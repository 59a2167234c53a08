use shortforge::frame::{duration_to_ms, pick_frame, pts_to_ms, FramePick, VideoFrame};
use shortforge::remux::{mix_filter_text, needs_audio_mux, remux_args, AudioSource};

#[test]
fn new_frame_is_blank() {
    let f = VideoFrame::new(3, 2);
    assert_eq!(f.stride(), 12);
    assert_eq!(f.data.len(), 24);
    assert!(f.data.iter().all(|b| *b == 0));
    assert_eq!(f.pts_ms, 0);
}

#[test]
fn plane_rows_copy_within_both_strides() {
    let src: Vec<u8> = (0..20).collect();
    let f = VideoFrame::from_rgba_plane(1, 2, 40, &src, 10);
    assert_eq!(f.pts_ms, 40);
    assert_eq!(f.data, vec![0, 1, 2, 3, 10, 11, 12, 13]);
    let narrow: Vec<u8> = vec![1, 2, 3, 4, 5, 6];
    let g = VideoFrame::from_rgba_plane(2, 2, 0, &narrow, 3);
    assert_eq!(g.data, vec![1, 2, 3, 0, 0, 0, 0, 0, 4, 5, 6, 0, 0, 0, 0, 0]);
}

#[test]
fn frame_rows_copy_into_padded_plane() {
    let mut f = VideoFrame::new(1, 2);
    f.data = vec![1, 2, 3, 4, 5, 6, 7, 8];
    let mut dst = vec![9u8; 12];
    f.copy_into_plane(&mut dst, 6);
    assert_eq!(dst, vec![1, 2, 3, 4, 9, 9, 5, 6, 7, 8, 9, 9]);
}

#[test]
fn timestamps_to_milliseconds() {
    assert_eq!(pts_to_ms(1001, 1, 30000), 33);
    assert_eq!(pts_to_ms(90000, 1, 90000), 1000);
    assert_eq!(pts_to_ms(-5, 1, 1000), 0);
    assert_eq!(pts_to_ms(3, 1, 0), u64::MAX);
    assert_eq!(pts_to_ms(0, 1, 0), 0);
    assert_eq!(pts_to_ms(-3, -1, 1), 3000);
}

fn source(path: &str, start_ms: u64) -> AudioSource {
    AudioSource { path: path.to_string(), start_ms, end_ms: start_ms + 1000 }
}

#[test]
fn remux_mixes_several_inputs() {
    let sources = vec![source("bgm.mp3", 0), source("se.wav", 1500)];
    assert!(needs_audio_mux(&sources));
    let args = remux_args("out_video_only.mp4", "in.mp4", &sources, "out.mp4", 44100);
    let expected: Vec<&str> = vec![
        "-y", "-i", "out_video_only.mp4", "-i", "in.mp4", "-i", "bgm.mp3", "-itsoffset", "1.500",
        "-i", "se.wav", "-map", "0:v:0", "-filter_complex",
        "[1:a][2:a][3:a]amix=inputs=3:duration=longest:dropout_transition=2[aout]", "-map",
        "[aout]", "-c:v", "copy", "-c:a", "aac", "-ar", "44100", "out.mp4",
    ];
    assert_eq!(args, expected);
}

#[test]
fn remux_copies_a_single_input() {
    assert!(!needs_audio_mux(&[]));
    let args = remux_args("v.mp4", "in.mp4", &[], "out.mp4", 48000);
    let expected: Vec<&str> = vec![
        "-y", "-i", "v.mp4", "-i", "in.mp4", "-map", "0:v:0", "-map", "1:a:0?", "-c:v", "copy",
        "-c:a", "aac", "-ar", "48000", "out.mp4",
    ];
    assert_eq!(args, expected);
    assert_eq!(mix_filter_text(2), "[1:a][2:a]amix=inputs=2:duration=longest:dropout_transition=2[aout]");
}

#[test]
fn remux_offsets_keep_three_decimals() {
    let args = remux_args("v", "o", &[source("a", 5), source("b", 61_050)], "x", 1);
    assert_eq!(args[5], "-itsoffset");
    assert_eq!(args[6], "0.005");
    assert_eq!(args[10], "61.050");
}

#[test]
fn frame_search_keeps_last_frame_not_past_target() {
    assert_eq!(pick_frame(None, 500, 100), FramePick { take: true, done: true });
    assert_eq!(pick_frame(None, 0, 100), FramePick { take: true, done: false });
    assert_eq!(pick_frame(Some(0), 33, 100), FramePick { take: true, done: false });
    assert_eq!(pick_frame(Some(66), 100, 100), FramePick { take: true, done: true });
    assert_eq!(pick_frame(Some(99), 133, 100), FramePick { take: false, done: false });
}

#[test]
fn container_duration_in_milliseconds() {
    assert_eq!(duration_to_ms(10_000_000), 10_000);
    assert_eq!(duration_to_ms(1_999), 1);
    assert_eq!(duration_to_ms(0), 0);
    assert_eq!(duration_to_ms(-5), 0);
}
