use yt_shortmaker::subtitles::ass_subtitle_text;
use yt_shortmaker::types::SubtitleSegment;

#[test]
fn test_generate_ass_subtitle() {
    let segments = vec![
        SubtitleSegment { start_ms: 0, end_ms: 2000, text: "Hello world".to_string() },
        SubtitleSegment { start_ms: 2500, end_ms: 5000, text: "Testing subtitles".to_string() },
    ];

    let content = ass_subtitle_text(&segments);
    assert!(content.contains("[Script Info]"));
    assert!(content.contains("PlayResX: 1080"));
    assert!(content.contains("PlayResY: 1920"));
    assert!(content.contains("Hello world"));
    assert!(content.contains("Testing subtitles"));
    assert!(content.contains("0:00:00.00"));
    assert!(content.contains("0:00:02.00"));
}

#[test]
fn subtitle_lines_break_as_ass() {
    let segments = vec![SubtitleSegment { start_ms: 61000, end_ms: 62500, text: "a\nb".to_string() }];
    let content = ass_subtitle_text(&segments);
    assert!(content.ends_with("Dialogue: 0,0:01:01.00,0:01:02.50,Default,,0,0,0,,a\\Nb\r\n"));
}
