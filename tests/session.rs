use yt_shortmaker::codec::{decode_session, encode_session};
use yt_shortmaker::types::{DialoguePhrase, SessionState, VideoMoment};

fn sample() -> SessionState {
    SessionState {
        youtube_url: "https://youtu.be/abc123".to_string(),
        moments: vec![
            VideoMoment {
                start_time: "00:05:20".to_string(),
                end_time: "00:06:10".to_string(),
                category: "Funny".to_string(),
                description: "Player falls. \"Ouch\"\\ \n\t\u{1}".to_string(),
                dialogue: vec![DialoguePhrase {
                    start_time: "00:05:21".to_string(),
                    end_time: "00:05:25".to_string(),
                    phrase: "Hello world — ¡olé!".to_string(),
                }],
            },
            VideoMoment {
                start_time: "00:31:00".to_string(),
                end_time: "00:31:40".to_string(),
                category: "Cinematic".to_string(),
                description: String::new(),
                dialogue: Vec::new(),
            },
        ],
        temp_dir: "/tmp/work".to_string(),
    }
}

fn same(a: &SessionState, b: &SessionState) -> bool {
    a.youtube_url == b.youtube_url
        && a.temp_dir == b.temp_dir
        && a.moments.len() == b.moments.len()
        && a.moments.iter().zip(&b.moments).all(|(x, y)| {
            x.start_time == y.start_time
                && x.end_time == y.end_time
                && x.category == y.category
                && x.description == y.description
                && x.dialogue.len() == y.dialogue.len()
                && x.dialogue.iter().zip(&y.dialogue).all(|(p, q)| {
                    p.start_time == q.start_time && p.end_time == q.end_time && p.phrase == q.phrase
                })
        })
}

#[test]
fn session_round_trip() {
    let s = sample();
    let text = encode_session(&s);
    let back = decode_session(&text).expect("decodes");
    assert!(same(&s, &back));
}

#[test]
fn empty_session_round_trip() {
    let s = SessionState { youtube_url: String::new(), moments: Vec::new(), temp_dir: String::new() };
    let text = encode_session(&s);
    assert_eq!(text, "{\"youtube_url\":\"\",\"moments\":[],\"temp_dir\":\"\"}");
    assert!(same(&s, &decode_session(&text).unwrap()));
}

#[test]
fn session_escapes() {
    let s = SessionState {
        youtube_url: "a\"b".to_string(),
        moments: Vec::new(),
        temp_dir: "c\\d\u{1f}".to_string(),
    };
    assert_eq!(
        encode_session(&s),
        "{\"youtube_url\":\"a\\\"b\",\"moments\":[],\"temp_dir\":\"c\\\\d\\u001f\"}"
    );
}

#[test]
fn pretty_printed_session_is_read() {
    let text = r#"{
  "youtube_url": "https://youtu.be/abc123",
  "moments": [
    {
      "start_time": "02:33",
      "end_time": "03:01",
      "category": "Cinematic",
      "description": "Description text.",
      "dialogue": [
        {
          "start_time": "02:33.500",
          "end_time": "02:37.000",
          "phrase": "Hello\/world\u000a"
        }
      ]
    }
  ],
  "temp_dir": "./tmp"
}
"#;
    let s = decode_session(text).expect("decodes");
    assert_eq!(s.moments.len(), 1);
    assert_eq!(s.moments[0].category, "Cinematic");
    assert_eq!(s.moments[0].dialogue[0].phrase, "Hello/world\n");
    assert_eq!(s.temp_dir, "./tmp");
}

#[test]
fn corrupt_session_is_no_session() {
    assert!(decode_session("").is_none());
    assert!(decode_session("{\"youtube_url\":\"x\"").is_none());
    assert!(decode_session("{\"youtube_url\":\"x\",\"moments\":[],\"temp_dir\":\"y\"} trailing").is_none());
    assert!(decode_session("{\"temp_dir\":\"y\",\"moments\":[],\"youtube_url\":\"x\"}").is_none());
}
