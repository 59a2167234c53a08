use shortforge::srt::SubtitleCue;
use shortforge::timing::{
    active_cues, char_progress, cubic_bezier_args, easing_kind, is_active, EasingKind, Progress,
};

fn cue(start_ms: u64, end_ms: u64, text: &str) -> SubtitleCue {
    SubtitleCue { index: 1, start_ms, end_ms, text: text.to_string() }
}

fn fraction(p: Progress) -> f64 {
    p.elapsed as f64 / p.duration as f64
}

#[test]
fn cue_interval_is_half_open() {
    let c = cue(1000, 5000, "x");
    assert!(!is_active(&c, 999));
    assert!(is_active(&c, 1000));
    assert!(is_active(&c, 4999));
    assert!(!is_active(&c, 5000));
}

#[test]
fn adjacent_cues_never_overlap() {
    let cues = vec![cue(5000, 8000, "b"), cue(1000, 5000, "a"), cue(0, 100_000, "bg")];
    assert_eq!(active_cues(&cues, 4999), vec![1, 2]);
    assert_eq!(active_cues(&cues, 5000), vec![0, 2]);
    assert_eq!(active_cues(&cues, 200_000), Vec::<usize>::new());
    assert_eq!(active_cues(&[], 0), Vec::<usize>::new());
}

#[test]
fn typewriter_scenario_progress() {
    let c = cue(1000, 4000, "AB");
    assert!(is_active(&c, 1000));
    assert_eq!(fraction(char_progress(0, 1000, c.start_ms, 50, 70)), 0.0);
    assert_eq!(fraction(char_progress(1, 1000, c.start_ms, 50, 70)), 0.0);
    assert!((fraction(char_progress(0, 1025, c.start_ms, 50, 70)) - 0.5).abs() < 0.001);
    assert_eq!(fraction(char_progress(0, 1050, c.start_ms, 50, 70)), 1.0);
    assert_eq!(fraction(char_progress(1, 1120, c.start_ms, 50, 70)), 1.0);
    assert_eq!(char_progress(1, 1095, c.start_ms, 50, 70), Progress { elapsed: 25, duration: 50 });
}

#[test]
fn progress_before_start_and_zero_duration() {
    assert_eq!(char_progress(0, 500, 1000, 100, 50), Progress { elapsed: 0, duration: 100 });
    assert_eq!(char_progress(2, 1099, 1000, 0, 50), Progress { elapsed: 0, duration: 1 });
    assert_eq!(char_progress(2, 1100, 1000, 0, 50), Progress { elapsed: 1, duration: 1 });
    assert_eq!(char_progress(0, 9000, 1000, 100, 50), Progress { elapsed: 100, duration: 100 });
}

#[test]
fn easing_names() {
    assert_eq!(easing_kind("linear"), EasingKind::Linear);
    assert_eq!(easing_kind(" ease "), EasingKind::Ease);
    assert_eq!(easing_kind("ease-in"), EasingKind::EaseIn);
    assert_eq!(easing_kind("ease-out"), EasingKind::EaseOut);
    assert_eq!(easing_kind("ease-in-out"), EasingKind::EaseInOut);
    assert_eq!(easing_kind("EASE"), EasingKind::Other);
    assert_eq!(easing_kind("cubic-bezier(0, 0, 1, 1)"), EasingKind::Other);
}

#[test]
fn cubic_bezier_argument_texts() {
    let args = cubic_bezier_args("cubic-bezier(0.34, 1.56, 0.64, 1)").unwrap();
    assert_eq!(args, vec!["0.34", "1.56", "0.64", "1"]);
    let args = cubic_bezier_args("  cubic-bezier(0.1, 0.2) ").unwrap();
    assert_eq!(args, vec!["0.1", "0.2"]);
    assert!(cubic_bezier_args("invalid").is_none());
    assert!(cubic_bezier_args("cubic-bezier(0.1, 0.2").is_none());
    assert!(cubic_bezier_args("bezier(0.1)").is_none());
    assert_eq!(cubic_bezier_args("cubic-bezier()").unwrap(), vec![""]);
}
