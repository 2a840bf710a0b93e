use vstd::prelude::*;

verus! {

/// One line of dialogue inside a moment.
#[derive(Debug, Clone)]
pub struct DialoguePhrase {
    pub start_time: String,
    pub end_time: String,
    pub phrase: String,
}

/// The text of a dialogue line.
pub struct PhraseView {
    pub start_time: Seq<char>,
    pub end_time: Seq<char>,
    pub phrase: Seq<char>,
}

impl View for DialoguePhrase {
    type V = PhraseView;

    open spec fn view(&self) -> PhraseView {
        PhraseView { start_time: self.start_time@, end_time: self.end_time@, phrase: self.phrase@ }
    }
}

/// A stretch of the source worth cutting into a short clip.
#[derive(Debug, Clone)]
pub struct VideoMoment {
    pub start_time: String,
    pub end_time: String,
    pub category: String,
    pub description: String,
    pub dialogue: Vec<DialoguePhrase>,
}

/// The text of a moment, with its dialogue in order.
pub struct MomentView {
    pub start_time: Seq<char>,
    pub end_time: Seq<char>,
    pub category: Seq<char>,
    pub description: Seq<char>,
    pub dialogue: Seq<PhraseView>,
}

pub open spec fn phrase_views(d: Seq<DialoguePhrase>) -> Seq<PhraseView> {
    d.map_values(|p: DialoguePhrase| p@)
}

impl View for VideoMoment {
    type V = MomentView;

    open spec fn view(&self) -> MomentView {
        MomentView {
            start_time: self.start_time@,
            end_time: self.end_time@,
            category: self.category@,
            description: self.description@,
            dialogue: phrase_views(self.dialogue@),
        }
    }
}

pub open spec fn moment_views(m: Seq<VideoMoment>) -> Seq<MomentView> {
    m.map_values(|x: VideoMoment| x@)
}

/// One analysed slice of the source: where it starts in the source and the
/// file that holds it.
#[derive(Debug, Clone)]
pub struct VideoChunk {
    pub start_seconds: u64,
    pub file_path: String,
}

/// Progress of one run, kept so that an interrupted run can resume.
#[derive(Debug, Clone)]
pub struct SessionState {
    pub youtube_url: String,
    pub moments: Vec<VideoMoment>,
    pub temp_dir: String,
}

/// One subtitle line, in milliseconds.
#[derive(Debug, Clone)]
pub struct SubtitleSegment {
    pub start_ms: i64,
    pub end_ms: i64,
    pub text: String,
}

/// How a chunk is re-encoded before it is sent for analysis.
#[derive(Debug, Clone)]
pub struct CompressionSettings {
    /// Target height in pixels.
    pub target_resolution: u32,
    /// Constant rate factor.
    pub crf: u32,
    pub audio_bitrate: String,
    pub preset: String,
}

impl CompressionSettings {
    pub open spec fn is_default(&self) -> bool {
        &&& self.target_resolution == 720
        &&& self.crf == 28
        &&& self.audio_bitrate@ == seq!['6', '4', 'k']
        &&& self.preset@ == seq!['f', 'a', 's', 't']
    }
}

impl Default for CompressionSettings {
    fn default() -> (r: Self)
        ensures
            r.is_default(),
    {
        let audio_bitrate = String::from_str("64k");
        let preset = String::from_str("fast");
        proof {
            reveal_strlit("64k");
            reveal_strlit("fast");
            assert("64k"@ =~= seq!['6', '4', 'k']);
            assert("fast"@ =~= seq!['f', 'a', 's', 't']);
        }
        CompressionSettings { target_resolution: 720, crf: 28, audio_bitrate, preset }
    }
}

} // verus!
