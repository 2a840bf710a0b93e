use yt_shortmaker::cropdetect::parse_cropdetect_output;
use yt_shortmaker::template::remove_js_comments;

#[test]
fn test_remove_js_comments() {
    let input = r#"[
            // This is a comment
            {"type": "clip", "position": {"x": 0}}
        ]"#;
    let result = remove_js_comments(input);
    assert!(!result.contains("//"));
    assert!(result.contains("clip"));
}

#[test]
fn comments_inside_strings_are_kept() {
    let input = "{\"url\": \"https://a.b/c\"} // trailing\n{\"q\": \"say \\\"//x\\\"\"}";
    assert_eq!(
        remove_js_comments(input),
        "{\"url\": \"https://a.b/c\"} \n{\"q\": \"say \\\"//x\\\"\"}"
    );
}

#[test]
fn comment_at_end_without_newline() {
    assert_eq!(remove_js_comments("[1] // done"), "[1] ");
    assert_eq!(remove_js_comments("a / b"), "a / b");
}

#[test]
fn test_parse_cropdetect_output() {
    let stderr = r#"
[Parsed_cropdetect_0 @ 0x...] x1:0 x2:1279 y1:0 y2:719 w:1280 h:720 x:0 y:0 pts:0 t:0.000000 crop=1280:720:0:0
[Parsed_cropdetect_0 @ 0x...] x1:10 x2:1269 y1:5 y2:714 w:1264 h:704 x:8 y:8 pts:1001 t:0.033367 crop=1264:704:8:8
"#;
    let result = parse_cropdetect_output(stderr);
    assert!(result.is_some());
    let (w, h, x, y) = result.unwrap();
    assert_eq!(w, 1264);
    assert_eq!(h, 704);
    assert_eq!(x, 8);
    assert_eq!(y, 8);
}

#[test]
fn cropdetect_skips_bad_lines() {
    assert_eq!(parse_cropdetect_output(""), None);
    assert_eq!(parse_cropdetect_output("crop=1:2:3:4\r\ncrop=9:9:x:9\n"), Some((1, 2, 3, 4)));
    assert_eq!(parse_cropdetect_output("crop=1:2:3"), None);
    assert_eq!(parse_cropdetect_output("crop=4294967296:1:1:1"), None);
}
