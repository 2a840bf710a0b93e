use vstd::prelude::*;

use crate::media::{ass_text_signed, format_ass_timestamp};
use crate::text::{chars_of, push_str, string_of};
use crate::types::SubtitleSegment;

verus! {

/// Script info, style and event format of a subtitle document for a
/// 1080x1920 short.
pub const ASS_HEADER: &'static str = "[Script Info]\r\nTitle: YT ShortMaker Subtitles\r\nScriptType: v4.00+\r\nPlayResX: 1080\r\nPlayResY: 1920\r\nWrapStyle: 0\r\n\r\n[V4+ Styles]\r\nFormat: Name, Fontname, Fontsize, PrimaryColour, SecondaryColour, OutlineColour, BackColour, Bold, Italic, Underline, StrikeOut, ScaleX, ScaleY, Spacing, Angle, BorderStyle, Outline, Shadow, Alignment, MarginL, MarginR, MarginV, Encoding\r\nStyle: Default,Arial,72,&H00FFFFFF,&H000000FF,&H00000000,&H80000000,1,0,0,0,100,100,0,0,1,4,2,2,40,40,120,1\r\n\r\n[Events]\r\nFormat: Layer, Start, End, Style, Name, MarginL, MarginR, MarginV, Effect, Text\r\n";

/// Subtitle text with each line feed written as the `\N` line break.
pub open spec fn ass_line_text(s: Seq<char>) -> Seq<char>
    decreases s.len(),
{
    if s.len() == 0 {
        Seq::empty()
    } else {
        ass_line_text(s.drop_last()) + if s.last() == '\n' {
            seq!['\\', 'N']
        } else {
            seq![s.last()]
        }
    }
}

/// The event line of one segment.
pub open spec fn ass_event(start_ms: i64, end_ms: i64, text: Seq<char>) -> Seq<char> {
    "Dialogue: 0,"@ + ass_text_signed(start_ms as int) + seq![','] + ass_text_signed(end_ms as int)
        + ",Default,,0,0,0,,"@ + ass_line_text(text) + seq!['\r', '\n']
}

/// The event lines of the segments, in order.
pub open spec fn ass_events(segs: Seq<SubtitleSegment>) -> Seq<char>
    decreases segs.len(),
{
    if segs.len() == 0 {
        Seq::empty()
    } else {
        ass_events(segs.drop_last()) + ass_event(
            segs.last().start_ms,
            segs.last().end_ms,
            segs.last().text@,
        )
    }
}

fn push_ass_line_text(out: &mut Vec<char>, s: &str)
    ensures
        final(out)@ == old(out)@ + ass_line_text(s@),
{
    let cs = chars_of(s);
    let ghost start = out@;
    let mut i: usize = 0;
    while i < cs.len()
        invariant
            i <= cs@.len(),
            out@ == start + ass_line_text(cs@.take(i as int)),
        decreases cs@.len() - i,
    {
        if cs[i] == '\n' {
            out.push('\\');
            out.push('N');
        } else {
            out.push(cs[i]);
        }
        i = i + 1;
        assert(cs@.take(i as int).drop_last() =~= cs@.take(i - 1));
        assert(out@ =~= start + ass_line_text(cs@.take(i as int)));
    }
    assert(cs@.take(i as int) =~= s@);
}

fn push_event(out: &mut Vec<char>, seg: &SubtitleSegment)
    ensures
        final(out)@ == old(out)@ + ass_event(seg.start_ms, seg.end_ms, seg.text@),
{
    let st = format_ass_timestamp(seg.start_ms);
    let en = format_ass_timestamp(seg.end_ms);
    let ghost a = ass_text_signed(seg.start_ms as int);
    let ghost b = ass_text_signed(seg.end_ms as int);
    push_str(out, "Dialogue: 0,");
    push_str(out, st.as_str());
    out.push(',');
    push_str(out, en.as_str());
    push_str(out, ",Default,,0,0,0,,");
    push_ass_line_text(out, seg.text.as_str());
    out.push('\r');
    out.push('\n');
    assert(final(out)@ =~= old(out)@ + ("Dialogue: 0,"@ + a + seq![','] + b + ",Default,,0,0,0,,"@
        + ass_line_text(seg.text@) + seq!['\r', '\n']));
}

/// The subtitle document for the segments: the header, then one event line
/// per segment.
pub fn ass_subtitle_text(segments: &Vec<SubtitleSegment>) -> (r: String)
    ensures
        r@ == ASS_HEADER@ + ass_events(segments@),
{
    let mut out: Vec<char> = Vec::new();
    push_str(&mut out, ASS_HEADER);
    let ghost start = out@;
    let mut i: usize = 0;
    assert(segments@.take(0) =~= Seq::<SubtitleSegment>::empty());
    assert(out@ =~= start + ass_events(segments@.take(0)));
    while i < segments.len()
        invariant
            i <= segments@.len(),
            start == ASS_HEADER@,
            out@ == start + ass_events(segments@.take(i as int)),
        decreases segments@.len() - i,
    {
        push_event(&mut out, &segments[i]);
        i = i + 1;
        assert(segments@.take(i as int).drop_last() =~= segments@.take(i - 1));
        assert(out@ =~= start + ass_events(segments@.take(i as int)));
    }
    assert(segments@.take(i as int) =~= segments@);
    string_of(&out)
}

} // verus!
