use shortforge::preset::{ExportPreset, Resolution, SafeZones};
use shortforge::validate::validate_for_export;

fn tiktok_preset() -> ExportPreset {
    ExportPreset {
        platform: "tiktok".to_string(),
        display_name: "TikTok".to_string(),
        resolution: Resolution {
            width: 1080,
            height: 1920,
        },
        aspect_ratio: "9:16".to_string(),
        max_duration_sec: 180,
        recommended_duration_sec: Some(60),
        fps: 30,
        codec: "h264".to_string(),
        audio_codec: "aac".to_string(),
        audio_sample_rate: 44100,
        max_file_size_mb: 287,
        bitrate_kbps: 6000,
        safe_zones: SafeZones {
            top_px: 120,
            bottom_px: 280,
            right_px: 80,
        },
    }
}

#[test]
fn test_valid_project() {
    let result = validate_for_export(30000, 1080, 1920, &tiktok_preset());
    assert!(result.valid);
    assert!(result.errors.is_empty());
}

#[test]
fn test_duration_exceeded() {
    let result = validate_for_export(200_000, 1080, 1920, &tiktok_preset());
    assert!(!result.valid);
    assert!(result.errors.iter().any(|e| e.code == "DURATION_EXCEEDED"));
}

#[test]
fn test_duration_warning() {
    let result = validate_for_export(90_000, 1080, 1920, &tiktok_preset());
    assert!(result.valid);
    assert!(result.warnings.iter().any(|w| w.code == "DURATION_LONG"));
}

#[test]
fn test_resolution_mismatch() {
    let result = validate_for_export(30000, 720, 1280, &tiktok_preset());
    assert!(result.warnings.iter().any(|w| w.code == "RESOLUTION_MISMATCH"));
}

#[test]
fn validation_messages_and_aspect_ratio() {
    let result = validate_for_export(200_999, 1920, 1080, &tiktok_preset());
    assert!(!result.valid);
    assert_eq!(result.errors.len(), 2);
    assert_eq!(result.errors[0].code, "DURATION_EXCEEDED");
    assert_eq!(
        result.errors[0].message,
        "動画の長さ(200秒)がTikTokの最大長(180)秒を超えています"
    );
    assert_eq!(result.errors[1].code, "ASPECT_RATIO");
    assert_eq!(
        result.errors[1].message,
        "アスペクト比が9:16ではありません（現在: 1.78）"
    );
    assert_eq!(result.warnings.len(), 2);
    assert_eq!(
        result.warnings[0].message,
        "TikTokでは60秒以下が推奨されています（現在: 200秒）"
    );
    assert_eq!(
        result.warnings[1].message,
        "解像度(1920x1080)がTikTokの推奨(1080x1920)と異なります"
    );
}

#[test]
fn aspect_ratio_edges() {
    let p = tiktok_preset();
    assert!(validate_for_export(1000, 720, 1280, &p).valid);
    let r = validate_for_export(1000, 5, 0, &p);
    assert_eq!(r.errors[0].message, "アスペクト比が9:16ではありません（現在: inf）");
    assert!(validate_for_export(1000, 0, 0, &p).errors.is_empty());
    let r = validate_for_export(1000, 1, 3, &p);
    assert_eq!(r.errors[0].message, "アスペクト比が9:16ではありません（現在: 0.33）");
    assert!(validate_for_export(60_999, 1080, 1920, &p).warnings.is_empty());
    assert_eq!(p.bitrate_bps(), 6_000_000);
}
