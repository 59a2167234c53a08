use shortforge::srt::{parse_srt, parse_timestamp};

#[test]
fn test_parse_timestamp() {
    assert_eq!(parse_timestamp("00:00:01,500").unwrap(), 1500);
    assert_eq!(parse_timestamp("00:01:00,000").unwrap(), 60000);
    assert_eq!(parse_timestamp("01:00:00,000").unwrap(), 3600000);
    assert_eq!(parse_timestamp("00:00:00,100").unwrap(), 100);
    assert_eq!(parse_timestamp("00:02:35,750").unwrap(), 155750);
}

#[test]
fn test_parse_srt_basic() {
    let srt = r#"1
00:00:01,000 --> 00:00:04,000
こんにちは世界

2
00:00:05,000 --> 00:00:08,500
ショート動画の作り方
"#;
    let cues = parse_srt(srt).unwrap();
    assert_eq!(cues.len(), 2);

    assert_eq!(cues[0].index, 1);
    assert_eq!(cues[0].start_ms, 1000);
    assert_eq!(cues[0].end_ms, 4000);
    assert_eq!(cues[0].text, "こんにちは世界");

    assert_eq!(cues[1].index, 2);
    assert_eq!(cues[1].start_ms, 5000);
    assert_eq!(cues[1].end_ms, 8500);
    assert_eq!(cues[1].text, "ショート動画の作り方");
}

#[test]
fn test_parse_srt_multiline_text() {
    let srt = r#"1
00:00:01,000 --> 00:00:04,000
First line
Second line
"#;
    let cues = parse_srt(srt).unwrap();
    assert_eq!(cues.len(), 1);
    assert_eq!(cues[0].text, "First line\nSecond line");
}

#[test]
fn test_parse_srt_windows_line_endings() {
    let srt = "1\r\n00:00:01,000 --> 00:00:04,000\r\nHello\r\n\r\n2\r\n00:00:05,000 --> 00:00:08,000\r\nWorld\r\n";
    let cues = parse_srt(srt).unwrap();
    assert_eq!(cues.len(), 2);
    assert_eq!(cues[0].text, "Hello");
    assert_eq!(cues[1].text, "World");
}

#[test]
fn test_parse_srt_empty() {
    let cues = parse_srt("").unwrap();
    assert!(cues.is_empty());
}

#[test]
fn test_parse_timestamp_invalid() {
    assert!(parse_timestamp("invalid").is_err());
    assert!(parse_timestamp("00:00").is_err());
}

#[test]
fn timestamp_fraction_is_padded_or_cut() {
    assert_eq!(parse_timestamp("00:00:01,5").unwrap(), 1500);
    assert_eq!(parse_timestamp("00:00:01,50").unwrap(), 1500);
    assert_eq!(parse_timestamp("00:00:01,5004").unwrap(), 1500);
    assert_eq!(parse_timestamp("00:00:02").unwrap(), 2000);
    assert_eq!(parse_timestamp("  00:00:02.250 ").unwrap(), 2250);
}

#[test]
fn timestamp_error_messages() {
    assert_eq!(parse_timestamp("00:00").unwrap_err(), "Invalid timestamp format: 00:00");
    assert_eq!(parse_timestamp("xx:00:01,000").unwrap_err(), "Invalid hours: xx");
    assert_eq!(parse_timestamp("00:m:01,000").unwrap_err(), "Invalid minutes: m");
    assert_eq!(parse_timestamp("00:00:s,000").unwrap_err(), "Invalid seconds: s");
    assert_eq!(parse_timestamp("00:00:01,x").unwrap_err(), "Invalid milliseconds: x");
    assert!(parse_timestamp("99999999999999999:00:00,000").is_err());
}

#[test]
fn srt_block_errors_and_skips() {
    let bad_index = "x\n00:00:01,000 --> 00:00:02,000\nHi\n";
    assert_eq!(parse_srt(bad_index).unwrap_err(), "Invalid subtitle index: x");
    let bad_timing = "1\n00:00:01,000 00:00:02,000\nHi\n";
    assert_eq!(
        parse_srt(bad_timing).unwrap_err(),
        "Invalid timing line: 00:00:01,000 00:00:02,000"
    );
    let bad_time = "1\n00:00:01,000 --> 00:02,000\nHi\n";
    assert_eq!(parse_srt(bad_time).unwrap_err(), "Invalid timestamp format: 00:02.000");
    let short = "1\n00:00:01,000 --> 00:00:02,000\n\n\n2\n00:00:03,000 --> 00:00:04,000\nYo\n";
    let cues = parse_srt(short).unwrap();
    assert_eq!(cues.len(), 1);
    assert_eq!(cues[0].index, 2);
    assert_eq!(cues[0].text, "Yo");
}

#[test]
fn srt_lone_carriage_returns_are_line_breaks() {
    let srt = "7\r00:00:00,000 --> 00:00:00,500\rA\rB\r";
    let cues = parse_srt(srt).unwrap();
    assert_eq!(cues.len(), 1);
    assert_eq!(cues[0].index, 7);
    assert_eq!(cues[0].end_ms, 500);
    assert_eq!(cues[0].text, "A\nB");
}
