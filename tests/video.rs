use yt_shortmaker::chunks::calculate_chunks;
use yt_shortmaker::media::{format_ass_timestamp, validate_media_url};
use yt_shortmaker::timestamp::{
    format_seconds_to_timestamp, parse_timestamp_to_seconds, TimestampError,
};
use yt_shortmaker::types::CompressionSettings;

#[test]
fn test_calculate_chunks_short_video() {
    let chunks = calculate_chunks(20 * 60);
    assert_eq!(chunks.len(), 1);
    assert_eq!(chunks[0], (0, 20 * 60));
}

#[test]
fn test_calculate_chunks_long_video() {
    let chunks = calculate_chunks(90 * 60);
    assert_eq!(chunks.len(), 3);
}

#[test]
fn chunks_at_merge_threshold_stay_whole() {
    assert_eq!(calculate_chunks(2700), vec![(0, 2700)]);
}

#[test]
fn chunks_of_ninety_minutes_are_three_slices() {
    assert_eq!(calculate_chunks(5400), vec![(0, 1800), (1800, 1800), (3600, 1800)]);
}

#[test]
fn chunks_merge_short_tail() {
    assert_eq!(calculate_chunks(4000), vec![(0, 1800), (1800, 2200)]);
}

#[test]
fn chunks_of_nothing_are_empty() {
    assert!(calculate_chunks(0).is_empty());
}

#[test]
fn chunks_tile_the_duration() {
    for total in [1u64, 1799, 1800, 2701, 4500, 4501, 5000, 100_000] {
        let chunks = calculate_chunks(total);
        let mut at = 0;
        for (start, len) in &chunks {
            assert_eq!(*start, at);
            assert!(*len > 0 && *len <= 1800 + 2700);
            at += len;
        }
        assert_eq!(at, total);
    }
}

#[test]
fn test_format_timestamp() {
    assert_eq!(format_seconds_to_timestamp(3661), "01:01:01");
    assert_eq!(format_seconds_to_timestamp(0), "00:00:00");
}

#[test]
fn format_timestamp_long_hours() {
    assert_eq!(format_seconds_to_timestamp(360_000 + 59), "100:00:59");
}

#[test]
fn test_parse_timestamp() {
    assert_eq!(parse_timestamp_to_seconds("01:01:01").unwrap(), 3661);
    assert_eq!(parse_timestamp_to_seconds("00:00:00").unwrap(), 0);
}

#[test]
fn parse_timestamp_errors() {
    assert_eq!(parse_timestamp_to_seconds("02:33"), Err(TimestampError::FieldCount));
    assert_eq!(parse_timestamp_to_seconds("1:2:3:4"), Err(TimestampError::FieldCount));
    assert_eq!(parse_timestamp_to_seconds("aa:00:00"), Err(TimestampError::BadField));
    assert_eq!(parse_timestamp_to_seconds("00::00"), Err(TimestampError::BadField));
    assert_eq!(parse_timestamp_to_seconds("00:02:33.5"), Err(TimestampError::BadField));
    assert_eq!(
        parse_timestamp_to_seconds("18446744073709551615:00:00"),
        Err(TimestampError::OutOfRange)
    );
    assert_eq!(parse_timestamp_to_seconds("+1:+0:7"), Ok(3607));
}

#[test]
fn test_validate_media_url() {
    assert!(validate_media_url("https://www.youtube.com/watch?v=abc123"));
    assert!(validate_media_url("https://youtu.be/abc123"));
    assert!(validate_media_url("https://vimeo.com/video"));
    assert!(validate_media_url("http://example.com/video.mp4"));

    assert!(!validate_media_url("not_a_url"));
    assert!(!validate_media_url("ftp://server/file.mp4"));
    assert!(!validate_media_url("file:///local/path"));
}

#[test]
fn validate_media_url_ignores_case() {
    assert!(validate_media_url("HTTPS://EXAMPLE.COM"));
}

#[test]
fn test_format_ass_timestamp() {
    assert_eq!(format_ass_timestamp(0), "0:00:00.00");
    assert_eq!(format_ass_timestamp(1500), "0:00:01.50");
    assert_eq!(format_ass_timestamp(61000), "0:01:01.00");
    assert_eq!(format_ass_timestamp(3661500), "1:01:01.50");
}

#[test]
fn format_ass_timestamp_negative() {
    assert_eq!(format_ass_timestamp(-1500), format!("{}:{:02}:{:02}.{:02}", 0, 0, -1, -50));
}

#[test]
fn test_compression_settings_default() {
    let settings = CompressionSettings::default();
    assert_eq!(settings.target_resolution, 720);
    assert_eq!(settings.crf, 28);
    assert_eq!(settings.audio_bitrate, "64k");
    assert_eq!(settings.preset, "fast");
}
