use vstd::prelude::*;

use crate::text::{chars_of, push_str, string_of};
use crate::types::{
    moment_views, phrase_views, DialoguePhrase, MomentView, PhraseView, SessionState, VideoMoment,
};

verus! {

/// What a session holds.
pub struct SessionView {
    pub youtube_url: Seq<char>,
    pub moments: Seq<MomentView>,
    pub temp_dir: Seq<char>,
}

impl View for SessionState {
    type V = SessionView;

    open spec fn view(&self) -> SessionView {
        SessionView {
            youtube_url: self.youtube_url@,
            moments: moment_views(self.moments@),
            temp_dir: self.temp_dir@,
        }
    }
}

// ---------------------------------------------------------------- encoding

pub open spec fn hex_digits() -> Seq<char> {
    seq!['0', '1', '2', '3', '4', '5', '6', '7', '8', '9', 'a', 'b', 'c', 'd', 'e', 'f']
}

/// A character inside a JSON string literal: quote, backslash, line feed,
/// carriage return and tab get their short escapes, other control
/// characters `\u00XX`, the rest stand for themselves.
pub open spec fn escape_char(c: char) -> Seq<char> {
    if c == '"' {
        seq!['\\', '"']
    } else if c == '\\' {
        seq!['\\', '\\']
    } else if c == '\n' {
        seq!['\\', 'n']
    } else if c == '\r' {
        seq!['\\', 'r']
    } else if c == '\t' {
        seq!['\\', 't']
    } else if (c as u32) < 32 {
        seq![
            '\\',
            'u',
            '0',
            '0',
            hex_digits()[(c as u32 / 16) as int],
            hex_digits()[(c as u32 % 16) as int],
        ]
    } else {
        seq![c]
    }
}

pub open spec fn escape(s: Seq<char>) -> Seq<char>
    decreases s.len(),
{
    if s.len() == 0 {
        Seq::empty()
    } else {
        escape(s.drop_last()) + escape_char(s.last())
    }
}

/// A JSON string literal.
pub open spec fn enc_str(s: Seq<char>) -> Seq<char> {
    seq!['"'] + escape(s) + seq!['"']
}

/// `"key":` followed by the literal of `v`.
pub open spec fn enc_field(key: Seq<char>, v: Seq<char>) -> Seq<char> {
    enc_str(key) + seq![':'] + enc_str(v)
}

#[verifier::opaque]
pub open spec fn enc_phrase(p: PhraseView) -> Seq<char> {
    seq!['{'] + enc_field("start_time"@, p.start_time) + seq![','] + enc_field(
        "end_time"@,
        p.end_time,
    ) + seq![','] + enc_field("phrase"@, p.phrase) + seq!['}']
}

/// The phrases, comma separated.
pub open spec fn enc_phrase_items(ps: Seq<PhraseView>) -> Seq<char>
    decreases ps.len(),
{
    if ps.len() == 0 {
        Seq::empty()
    } else if ps.len() == 1 {
        enc_phrase(ps[0])
    } else {
        enc_phrase(ps[0]) + seq![','] + enc_phrase_items(ps.drop_first())
    }
}

pub open spec fn enc_phrases(ps: Seq<PhraseView>) -> Seq<char> {
    seq!['['] + enc_phrase_items(ps) + seq![']']
}

#[verifier::opaque]
pub open spec fn enc_moment(m: MomentView) -> Seq<char> {
    seq!['{'] + enc_field("start_time"@, m.start_time) + seq![','] + enc_field(
        "end_time"@,
        m.end_time,
    ) + seq![','] + enc_field("category"@, m.category) + seq![','] + enc_field(
        "description"@,
        m.description,
    ) + seq![','] + enc_str("dialogue"@) + seq![':'] + enc_phrases(m.dialogue) + seq!['}']
}

pub open spec fn enc_moment_items(ms: Seq<MomentView>) -> Seq<char>
    decreases ms.len(),
{
    if ms.len() == 0 {
        Seq::empty()
    } else if ms.len() == 1 {
        enc_moment(ms[0])
    } else {
        enc_moment(ms[0]) + seq![','] + enc_moment_items(ms.drop_first())
    }
}

pub open spec fn enc_moments(ms: Seq<MomentView>) -> Seq<char> {
    seq!['['] + enc_moment_items(ms) + seq![']']
}

/// The session file: a JSON object with `youtube_url`, `moments` and
/// `temp_dir`, in that order, without white space.
#[verifier::opaque]
pub open spec fn enc_session(s: SessionView) -> Seq<char> {
    seq!['{'] + enc_field("youtube_url"@, s.youtube_url) + seq![','] + enc_str("moments"@)
        + seq![':'] + enc_moments(s.moments) + seq![','] + enc_field("temp_dir"@, s.temp_dir)
        + seq!['}']
}

// ---------------------------------------------------------------- decoding

pub open spec fn is_json_space(c: char) -> bool {
    c == ' ' || c == '\t' || c == '\n' || c == '\r'
}

/// `t` without leading white space.
pub open spec fn skip_ws(t: Seq<char>) -> Seq<char>
    decreases t.len(),
{
    if t.len() > 0 && is_json_space(t[0]) {
        skip_ws(t.drop_first())
    } else {
        t
    }
}

/// What follows the character `c` at the start of `t`, white space allowed before it.
pub open spec fn token(t: Seq<char>, c: char) -> Option<Seq<char>> {
    let u = skip_ws(t);
    if u.len() > 0 && u[0] == c {
        Some(u.drop_first())
    } else {
        None
    }
}

pub open spec fn hex_value(c: char) -> Option<nat> {
    if '0' <= c && c <= '9' {
        Some((c as int - '0' as int) as nat)
    } else if 'a' <= c && c <= 'f' {
        Some((c as int - 'a' as int + 10) as nat)
    } else if 'A' <= c && c <= 'F' {
        Some((c as int - 'A' as int + 10) as nat)
    } else {
        None
    }
}

/// The character an escape at the start of `t` stands for, and its length.
/// Accepted: `\" \\ \/ \b \f \n \r \t` and `\u00XX` for a control character.
pub open spec fn unescape(t: Seq<char>) -> Option<(char, nat)> {
    if t.len() < 2 || t[0] != '\\' {
        None
    } else {
        let e = t[1];
        if e == '"' {
            Some(('"', 2))
        } else if e == '\\' {
            Some(('\\', 2))
        } else if e == '/' {
            Some(('/', 2))
        } else if e == 'b' {
            Some(('\u{8}', 2))
        } else if e == 'f' {
            Some(('\u{c}', 2))
        } else if e == 'n' {
            Some(('\n', 2))
        } else if e == 'r' {
            Some(('\r', 2))
        } else if e == 't' {
            Some(('\t', 2))
        } else if e == 'u' && t.len() >= 6 && t[2] == '0' && t[3] == '0' && (t[4] == '0' || t[4]
            == '1') && hex_value(t[5]) is Some {
            Some(((((hex_value(t[4])->0) * 16 + hex_value(t[5])->0) as u8) as char, 6))
        } else {
            None
        }
    }
}

/// The rest of a string literal after its opening quote: its characters and
/// what follows the closing quote.
pub open spec fn str_body(t: Seq<char>) -> Option<(Seq<char>, Seq<char>)>
    decreases t.len(),
{
    if t.len() == 0 {
        None
    } else if t[0] == '"' {
        Some((Seq::empty(), t.drop_first()))
    } else if t[0] == '\\' {
        match unescape(t) {
            None => None,
            Some((c, n)) => if n <= t.len() && n > 0 {
                match str_body(t.subrange(n as int, t.len() as int)) {
                    Some((v, r)) => Some((seq![c] + v, r)),
                    None => None,
                }
            } else {
                None
            },
        }
    } else if (t[0] as u32) < 32 {
        None
    } else {
        match str_body(t.drop_first()) {
            Some((v, r)) => Some((seq![t[0]] + v, r)),
            None => None,
        }
    }
}

pub open spec fn json_str(t: Seq<char>) -> Option<(Seq<char>, Seq<char>)> {
    match token(t, '"') {
        None => None,
        Some(u) => str_body(u),
    }
}

/// What follows `"key":`.
pub open spec fn field_key(t: Seq<char>, key: Seq<char>) -> Option<Seq<char>> {
    match json_str(t) {
        Some((k, r)) => if k == key {
            token(r, ':')
        } else {
            None
        },
        None => None,
    }
}

/// The value of `"key":"..."`, and what follows it.
pub open spec fn field(t: Seq<char>, key: Seq<char>) -> Option<(Seq<char>, Seq<char>)> {
    match field_key(t, key) {
        Some(r) => json_str(r),
        None => None,
    }
}


#[verifier::opaque]
pub open spec fn parse_phrase(t: Seq<char>) -> Option<(PhraseView, Seq<char>)> {
    match token(t, '{') {
        None => None,
        Some(t1) => match field(t1, "start_time"@) {
            None => None,
            Some((a, t2)) => match token(t2, ',') {
                None => None,
                Some(t3) => match field(t3, "end_time"@) {
                    None => None,
                    Some((b, t4)) => match token(t4, ',') {
                        None => None,
                        Some(t5) => match field(t5, "phrase"@) {
                            None => None,
                            Some((c, t6)) => match token(t6, '}') {
                                None => None,
                                Some(t7) => Some(
                                    (PhraseView { start_time: a, end_time: b, phrase: c }, t7),
                                ),
                            },
                        },
                    },
                },
            },
        },
    }
}

/// One or more phrases, comma separated, and what follows the closing bracket.
pub open spec fn phrase_items(t: Seq<char>) -> Option<(Seq<PhraseView>, Seq<char>)>
    decreases t.len(),
{
    match parse_phrase(t) {
        None => None,
        Some((p, u)) => match token(u, ',') {
            Some(v) => if v.len() < t.len() {
                match phrase_items(v) {
                    Some((ps, w)) => Some((seq![p] + ps, w)),
                    None => None,
                }
            } else {
                None
            },
            None => match token(u, ']') {
                Some(w) => Some((seq![p], w)),
                None => None,
            },
        },
    }
}

#[verifier::opaque]
pub open spec fn parse_phrases(t: Seq<char>) -> Option<(Seq<PhraseView>, Seq<char>)> {
    match token(t, '[') {
        None => None,
        Some(u) => match token(u, ']') {
            Some(w) => Some((Seq::empty(), w)),
            None => phrase_items(u),
        },
    }
}

/// The four text fields of a moment, each followed by a comma.
#[verifier::opaque]
pub open spec fn moment_texts(t: Seq<char>) -> Option<
    (Seq<char>, Seq<char>, Seq<char>, Seq<char>, Seq<char>),
> {
    match field(t, "start_time"@) {
        None => None,
        Some((a, t2)) => match token(t2, ',') {
            None => None,
            Some(t3) => match field(t3, "end_time"@) {
                None => None,
                Some((b, t4)) => match token(t4, ',') {
                    None => None,
                    Some(t5) => match field(t5, "category"@) {
                        None => None,
                        Some((c, t6)) => match token(t6, ',') {
                            None => None,
                            Some(t7) => match field(t7, "description"@) {
                                None => None,
                                Some((d, t8)) => match token(t8, ',') {
                                    None => None,
                                    Some(t9) => Some((a, b, c, d, t9)),
                                },
                            },
                        },
                    },
                },
            },
        },
    }
}

#[verifier::opaque]
pub open spec fn parse_moment(t: Seq<char>) -> Option<(MomentView, Seq<char>)> {
    match token(t, '{') {
        None => None,
        Some(t1) => match moment_texts(t1) {
            None => None,
            Some((a, b, c, d, t9)) => match field_key(t9, "dialogue"@) {
                None => None,
                Some(t10) => match parse_phrases(t10) {
                    None => None,
                    Some((ps, t11)) => match token(t11, '}') {
                        None => None,
                        Some(t12) => Some(
                            (
                                MomentView {
                                    start_time: a,
                                    end_time: b,
                                    category: c,
                                    description: d,
                                    dialogue: ps,
                                },
                                t12,
                            ),
                        ),
                    },
                },
            },
        },
    }
}

pub open spec fn moment_items(t: Seq<char>) -> Option<(Seq<MomentView>, Seq<char>)>
    decreases t.len(),
{
    match parse_moment(t) {
        None => None,
        Some((m, u)) => match token(u, ',') {
            Some(v) => if v.len() < t.len() {
                match moment_items(v) {
                    Some((ms, w)) => Some((seq![m] + ms, w)),
                    None => None,
                }
            } else {
                None
            },
            None => match token(u, ']') {
                Some(w) => Some((seq![m], w)),
                None => None,
            },
        },
    }
}

#[verifier::opaque]
pub open spec fn parse_moments(t: Seq<char>) -> Option<(Seq<MomentView>, Seq<char>)> {
    match token(t, '[') {
        None => None,
        Some(u) => match token(u, ']') {
            Some(w) => Some((Seq::empty(), w)),
            None => moment_items(u),
        },
    }
}

#[verifier::opaque]
pub open spec fn parse_session(t: Seq<char>) -> Option<(SessionView, Seq<char>)> {
    match token(t, '{') {
        None => None,
        Some(t1) => match field(t1, "youtube_url"@) {
            None => None,
            Some((a, t2)) => match token(t2, ',') {
                None => None,
                Some(t3) => match field_key(t3, "moments"@) {
                    None => None,
                    Some(t4) => match parse_moments(t4) {
                        None => None,
                        Some((ms, t5)) => match token(t5, ',') {
                            None => None,
                            Some(t6) => match field(t6, "temp_dir"@) {
                                None => None,
                                Some((b, t7)) => match token(t7, '}') {
                                    None => None,
                                    Some(t8) => Some(
                                        (SessionView { youtube_url: a, moments: ms, temp_dir: b }, t8),
                                    ),
                                },
                            },
                        },
                    },
                },
            },
        },
    }
}

/// What a session file holds: a session object with only white space after it.
pub open spec fn decode_session_spec(t: Seq<char>) -> Option<SessionView> {
    match parse_session(t) {
        Some((s, r)) => if skip_ws(r).len() == 0 {
            Some(s)
        } else {
            None
        },
        None => None,
    }
}

// ---------------------------------------------------------------- round trip

proof fn lemma_escape_add(a: Seq<char>, b: Seq<char>)
    ensures
        escape(a + b) == escape(a) + escape(b),
    decreases b.len(),
{
    if b.len() == 0 {
        assert(a + b =~= a);
        assert(escape(a) + escape(b) =~= escape(a));
    } else {
        lemma_escape_add(a, b.drop_last());
        assert((a + b).drop_last() =~= a + b.drop_last());
        assert((a + b).last() == b.last());
        assert(escape(a + b) =~= escape(a) + escape(b));
    }
}

proof fn lemma_escape_front(s: Seq<char>)
    requires
        s.len() > 0,
    ensures
        escape(s) == escape_char(s[0]) + escape(s.drop_first()),
{
    lemma_escape_add(seq![s[0]], s.drop_first());
    assert(seq![s[0]] + s.drop_first() =~= s);
    assert(seq![s[0]].drop_last() =~= Seq::<char>::empty());
    assert(escape(Seq::<char>::empty()) == Seq::<char>::empty());
    assert(escape(seq![s[0]]) =~= escape_char(s[0]));
}

proof fn lemma_control(c: char)
    requires
        (c as u32) < 32,
    ensures
        ((((c as u32) / 16 * 16 + (c as u32) % 16) as u8) as char) == c,
{
    assert((c as u32) / 16 * 16 + (c as u32) % 16 == (c as u32));
}

proof fn lemma_hex(k: nat)
    requires
        k < 16,
    ensures
        hex_value(hex_digits()[k as int]) == Some(k),
{
}

proof fn lemma_str_body(s: Seq<char>, rest: Seq<char>)
    ensures
        str_body(escape(s) + seq!['"'] + rest) == Some((s, rest)),
    decreases s.len(),
{
    if s.len() == 0 {
        assert(escape(s) == Seq::<char>::empty());
        let t = escape(s) + seq!['"'] + rest;
        assert(t[0] == '"');
        assert(t.drop_first() =~= rest);
    } else {
        let c = s[0];
        let s1 = s.drop_first();
        lemma_escape_front(s);
        lemma_str_body(s1, rest);
        let t1 = escape(s1) + seq!['"'] + rest;
        let t = escape(s) + seq!['"'] + rest;
        let e = escape_char(c);
        assert(t =~= e + t1);
        assert(seq![c] + s1 =~= s);
        if c == '"' || c == '\\' || c == '\n' || c == '\r' || c == '\t' {
            assert(t.subrange(2, t.len() as int) =~= t1);
        } else if (c as u32) < 32 {
            let code = c as u32;
            lemma_hex((code / 16) as nat);
            lemma_hex((code % 16) as nat);
            lemma_control(c);
            assert(t.subrange(6, t.len() as int) =~= t1);
        } else {
            assert(t.drop_first() =~= t1);
        }
    }
}

proof fn lemma_skip_ws(c: char, r: Seq<char>)
    requires
        !is_json_space(c),
    ensures
        skip_ws(seq![c] + r) == seq![c] + r,
        token(seq![c] + r, c) == Some(r),
{
    assert((seq![c] + r)[0] == c);
    assert((seq![c] + r).drop_first() =~= r);
}

proof fn lemma_json_str(s: Seq<char>, rest: Seq<char>)
    ensures
        json_str(enc_str(s) + rest) == Some((s, rest)),
{
    let t = enc_str(s) + rest;
    let u = escape(s) + seq!['"'] + rest;
    assert(t =~= seq!['"'] + u);
    lemma_skip_ws('"', u);
    lemma_str_body(s, rest);
}

proof fn lemma_field_key(k: Seq<char>, rest: Seq<char>)
    ensures
        field_key(enc_str(k) + seq![':'] + rest, k) == Some(rest),
{
    lemma_json_str(k, seq![':'] + rest);
    assert(enc_str(k) + seq![':'] + rest =~= enc_str(k) + (seq![':'] + rest));
    lemma_skip_ws(':', rest);
}

proof fn lemma_field(k: Seq<char>, v: Seq<char>, rest: Seq<char>)
    ensures
        field(enc_field(k, v) + rest, k) == Some((v, rest)),
{
    assert(enc_field(k, v) + rest =~= enc_str(k) + seq![':'] + (enc_str(v) + rest));
    lemma_field_key(k, enc_str(v) + rest);
    lemma_json_str(v, rest);
}

proof fn lemma_phrase(p: PhraseView, rest: Seq<char>)
    ensures
        parse_phrase(enc_phrase(p) + rest) == Some((p, rest)),
        enc_phrase(p).len() > 0,
        enc_phrase(p)[0] == '{',
{
    reveal(parse_phrase);
    reveal(enc_phrase);
    let r7 = seq!['}'] + rest;
    let r6 = enc_field("phrase"@, p.phrase) + r7;
    let r5 = seq![','] + r6;
    let r4 = enc_field("end_time"@, p.end_time) + r5;
    let r3 = seq![','] + r4;
    let r2 = enc_field("start_time"@, p.start_time) + r3;
    assert(enc_phrase(p) + rest =~= seq!['{'] + r2);
    lemma_skip_ws('{', r2);
    lemma_field("start_time"@, p.start_time, r3);
    lemma_skip_ws(',', r4);
    lemma_field("end_time"@, p.end_time, r5);
    lemma_skip_ws(',', r6);
    lemma_field("phrase"@, p.phrase, r7);
    lemma_skip_ws('}', rest);
}

proof fn lemma_phrase_items(ps: Seq<PhraseView>, rest: Seq<char>)
    requires
        ps.len() > 0,
    ensures
        phrase_items(enc_phrase_items(ps) + seq![']'] + rest) == Some((ps, rest)),
    decreases ps.len(),
{
    let t = enc_phrase_items(ps) + seq![']'] + rest;
    if ps.len() == 1 {
        assert(t =~= enc_phrase(ps[0]) + (seq![']'] + rest));
        lemma_phrase(ps[0], seq![']'] + rest);
        lemma_skip_ws(']', rest);
        assert(ps =~= seq![ps[0]]);
    } else {
        let tail = enc_phrase_items(ps.drop_first()) + seq![']'] + rest;
        assert(t =~= enc_phrase(ps[0]) + (seq![','] + tail));
        lemma_phrase(ps[0], seq![','] + tail);
        lemma_skip_ws(',', tail);
        assert(tail.len() < t.len());
        lemma_phrase_items(ps.drop_first(), rest);
        assert(seq![ps[0]] + ps.drop_first() =~= ps);
    }
}

proof fn lemma_phrases(ps: Seq<PhraseView>, rest: Seq<char>)
    ensures
        parse_phrases(enc_phrases(ps) + rest) == Some((ps, rest)),
{
    reveal(parse_phrases);
    let u = enc_phrase_items(ps) + seq![']'] + rest;
    assert(enc_phrases(ps) + rest =~= seq!['['] + u);
    lemma_skip_ws('[', u);
    if ps.len() == 0 {
        assert(u =~= seq![']'] + rest);
        lemma_skip_ws(']', rest);
        assert(ps =~= Seq::<PhraseView>::empty());
    } else {
        lemma_phrase(ps[0], Seq::empty());
        assert(u[0] == '{') by {
            if ps.len() == 1 {
                assert(u =~= enc_phrase(ps[0]) + (seq![']'] + rest));
            } else {
                assert(u =~= enc_phrase(ps[0]) + (seq![','] + enc_phrase_items(ps.drop_first())
                    + seq![']'] + rest));
            }
        }
        lemma_phrase_items(ps, rest);
    }
}

#[verifier::rlimit(60)]
proof fn lemma_moment_texts(m: MomentView, rest: Seq<char>)
    ensures
        moment_texts(
            enc_field("start_time"@, m.start_time) + seq![','] + enc_field("end_time"@, m.end_time)
                + seq![','] + enc_field("category"@, m.category) + seq![','] + enc_field(
                "description"@,
                m.description,
            ) + seq![','] + rest,
        ) == Some((m.start_time, m.end_time, m.category, m.description, rest)),
{
    reveal(moment_texts);
    let r9 = rest;
    let r8 = seq![','] + r9;
    let r7 = enc_field("description"@, m.description) + r8;
    let r6 = seq![','] + r7;
    let r5 = enc_field("category"@, m.category) + r6;
    let r4 = seq![','] + r5;
    let r3 = enc_field("end_time"@, m.end_time) + r4;
    let r2 = seq![','] + r3;
    let r1 = enc_field("start_time"@, m.start_time) + r2;
    assert(enc_field("start_time"@, m.start_time) + seq![','] + enc_field("end_time"@, m.end_time)
        + seq![','] + enc_field("category"@, m.category) + seq![','] + enc_field(
        "description"@,
        m.description,
    ) + seq![','] + rest =~= r1);
    lemma_field("start_time"@, m.start_time, r2);
    lemma_skip_ws(',', r3);
    lemma_field("end_time"@, m.end_time, r4);
    lemma_skip_ws(',', r5);
    lemma_field("category"@, m.category, r6);
    lemma_skip_ws(',', r7);
    lemma_field("description"@, m.description, r8);
    lemma_skip_ws(',', r9);
}

proof fn lemma_moment(m: MomentView, rest: Seq<char>)
    ensures
        parse_moment(enc_moment(m) + rest) == Some((m, rest)),
        enc_moment(m).len() > 0,
        enc_moment(m)[0] == '{',
{
    reveal(parse_moment);
    reveal(enc_moment);
    let r12 = seq!['}'] + rest;
    let r11 = enc_phrases(m.dialogue) + r12;
    let r10 = enc_str("dialogue"@) + seq![':'] + r11;
    let texts = enc_field("start_time"@, m.start_time) + seq![','] + enc_field(
        "end_time"@,
        m.end_time,
    ) + seq![','] + enc_field("category"@, m.category) + seq![','] + enc_field(
        "description"@,
        m.description,
    ) + seq![','];
    assert(enc_moment(m) + rest =~= seq!['{'] + (texts + r10));
    lemma_skip_ws('{', texts + r10);
    lemma_moment_texts(m, r10);
    assert(texts + r10 =~= enc_field("start_time"@, m.start_time) + seq![','] + enc_field(
        "end_time"@,
        m.end_time,
    ) + seq![','] + enc_field("category"@, m.category) + seq![','] + enc_field(
        "description"@,
        m.description,
    ) + seq![','] + r10);
    lemma_field_key("dialogue"@, r11);
    lemma_phrases(m.dialogue, r12);
    lemma_skip_ws('}', rest);
}

proof fn lemma_moment_items(ms: Seq<MomentView>, rest: Seq<char>)
    requires
        ms.len() > 0,
    ensures
        moment_items(enc_moment_items(ms) + seq![']'] + rest) == Some((ms, rest)),
    decreases ms.len(),
{
    let t = enc_moment_items(ms) + seq![']'] + rest;
    if ms.len() == 1 {
        assert(t =~= enc_moment(ms[0]) + (seq![']'] + rest));
        lemma_moment(ms[0], seq![']'] + rest);
        lemma_skip_ws(']', rest);
        assert(ms =~= seq![ms[0]]);
    } else {
        let tail = enc_moment_items(ms.drop_first()) + seq![']'] + rest;
        assert(t =~= enc_moment(ms[0]) + (seq![','] + tail));
        lemma_moment(ms[0], seq![','] + tail);
        lemma_skip_ws(',', tail);
        assert(tail.len() < t.len());
        lemma_moment_items(ms.drop_first(), rest);
        assert(seq![ms[0]] + ms.drop_first() =~= ms);
    }
}

proof fn lemma_moments(ms: Seq<MomentView>, rest: Seq<char>)
    ensures
        parse_moments(enc_moments(ms) + rest) == Some((ms, rest)),
{
    reveal(parse_moments);
    let u = enc_moment_items(ms) + seq![']'] + rest;
    assert(enc_moments(ms) + rest =~= seq!['['] + u);
    lemma_skip_ws('[', u);
    if ms.len() == 0 {
        assert(u =~= seq![']'] + rest);
        lemma_skip_ws(']', rest);
        assert(ms =~= Seq::<MomentView>::empty());
    } else {
        lemma_moment(ms[0], Seq::empty());
        assert(u[0] == '{') by {
            if ms.len() == 1 {
                assert(u =~= enc_moment(ms[0]) + (seq![']'] + rest));
            } else {
                assert(u =~= enc_moment(ms[0]) + (seq![','] + enc_moment_items(ms.drop_first())
                    + seq![']'] + rest));
            }
        }
        lemma_moment_items(ms, rest);
    }
}

/// Reading back a saved session gives the session that was saved.
#[verifier::rlimit(80)]
pub proof fn lemma_session_round_trip(s: SessionView)
    ensures
        decode_session_spec(enc_session(s)) == Some(s),
{
    reveal(parse_session);
    reveal(enc_session);
    let rest = Seq::<char>::empty();
    let r8 = seq!['}'] + rest;
    let r7 = enc_field("temp_dir"@, s.temp_dir) + r8;
    let r6 = seq![','] + r7;
    let r5 = enc_moments(s.moments) + r6;
    let r4 = enc_str("moments"@) + seq![':'] + r5;
    let r3 = seq![','] + r4;
    let r2 = enc_field("youtube_url"@, s.youtube_url) + r3;
    assert(enc_session(s) =~= seq!['{'] + r2);
    lemma_skip_ws('{', r2);
    lemma_field("youtube_url"@, s.youtube_url, r3);
    lemma_skip_ws(',', r4);
    lemma_field_key("moments"@, r5);
    lemma_moments(s.moments, r6);
    lemma_skip_ws(',', r7);
    lemma_field("temp_dir"@, s.temp_dir, r8);
    lemma_skip_ws('}', rest);
    assert(skip_ws(rest) == rest);
}


// ---------------------------------------------------------------- writing

proof fn lemma_phrase_items_push(ps: Seq<PhraseView>, p: PhraseView)
    ensures
        enc_phrase_items(ps.push(p)) == (if ps.len() == 0 {
            enc_phrase(p)
        } else {
            enc_phrase_items(ps) + seq![','] + enc_phrase(p)
        }),
    decreases ps.len(),
{
    if ps.len() == 0 {
        assert(ps.push(p)[0] == p);
        assert(ps.push(p).len() == 1);
        assert(enc_phrase_items(ps.push(p)) == enc_phrase(ps.push(p)[0]));
    } else if ps.len() == 1 {
        assert(ps.push(p).drop_first() =~= seq![p]);
        assert(ps.push(p)[0] == ps[0]);
        assert(seq![p][0] == p);
        assert(ps.push(p).drop_first().len() == 1);
        assert(ps.push(p).drop_first()[0] == p);
        assert(enc_phrase_items(seq![p]) == enc_phrase(p));
        assert(enc_phrase_items(ps.push(p)) == enc_phrase(ps[0]) + seq![','] + enc_phrase_items(ps.push(p).drop_first()));
        assert(enc_phrase_items(ps) == enc_phrase(ps[0]));
    } else if ps.len() > 1 {
        lemma_phrase_items_push(ps.drop_first(), p);
        assert(ps.push(p).drop_first() =~= ps.drop_first().push(p));
        assert(ps.push(p)[0] == ps[0]);
        assert(enc_phrase_items(ps.push(p)) =~= enc_phrase_items(ps) + seq![','] + enc_phrase(p));
    }
}

proof fn lemma_moment_items_push(ms: Seq<MomentView>, m: MomentView)
    ensures
        enc_moment_items(ms.push(m)) == (if ms.len() == 0 {
            enc_moment(m)
        } else {
            enc_moment_items(ms) + seq![','] + enc_moment(m)
        }),
    decreases ms.len(),
{
    if ms.len() == 0 {
        assert(ms.push(m)[0] == m);
        assert(ms.push(m).len() == 1);
        assert(enc_moment_items(ms.push(m)) == enc_moment(ms.push(m)[0]));
    } else if ms.len() == 1 {
        assert(ms.push(m).drop_first() =~= seq![m]);
        assert(ms.push(m)[0] == ms[0]);
        assert(seq![m][0] == m);
        assert(ms.push(m).drop_first().len() == 1);
        assert(ms.push(m).drop_first()[0] == m);
        assert(enc_moment_items(seq![m]) == enc_moment(m));
        assert(enc_moment_items(ms.push(m)) == enc_moment(ms[0]) + seq![','] + enc_moment_items(ms.push(m).drop_first()));
        assert(enc_moment_items(ms) == enc_moment(ms[0]));
    } else if ms.len() > 1 {
        lemma_moment_items_push(ms.drop_first(), m);
        assert(ms.push(m).drop_first() =~= ms.drop_first().push(m));
        assert(ms.push(m)[0] == ms[0]);
        assert(enc_moment_items(ms.push(m)) =~= enc_moment_items(ms) + seq![','] + enc_moment(m));
    }
}

fn hex_char(n: u32) -> (c: char)
    requires
        n < 16,
    ensures
        c == hex_digits()[n as int],
{
    if n < 10 {
        crate::text::digit_to_char(n as u64)
    } else if n == 10 {
        'a'
    } else if n == 11 {
        'b'
    } else if n == 12 {
        'c'
    } else if n == 13 {
        'd'
    } else if n == 14 {
        'e'
    } else {
        'f'
    }
}

fn push_escape_char(out: &mut Vec<char>, c: char)
    ensures
        final(out)@ == old(out)@ + escape_char(c),
{
    if c == '"' {
        out.push('\\');
        out.push('"');
    } else if c == '\\' {
        out.push('\\');
        out.push('\\');
    } else if c == '\n' {
        out.push('\\');
        out.push('n');
    } else if c == '\r' {
        out.push('\\');
        out.push('r');
    } else if c == '\t' {
        out.push('\\');
        out.push('t');
    } else if (c as u32) < 32 {
        let code = c as u32;
        out.push('\\');
        out.push('u');
        out.push('0');
        out.push('0');
        out.push(hex_char(code / 16));
        out.push(hex_char(code % 16));
    } else {
        out.push(c);
    }
    assert(final(out)@ =~= old(out)@ + escape_char(c));
}

/// Appends a JSON string literal of `s`.
fn push_json_str(out: &mut Vec<char>, s: &str)
    ensures
        final(out)@ == old(out)@ + enc_str(s@),
{
    let cs = chars_of(s);
    out.push('"');
    let ghost start = out@;
    let mut i: usize = 0;
    while i < cs.len()
        invariant
            i <= cs@.len(),
            out@ == start + escape(cs@.take(i as int)),
        decreases cs@.len() - i,
    {
        push_escape_char(out, cs[i]);
        i = i + 1;
        assert(cs@.take(i as int).drop_last() =~= cs@.take(i - 1));
        assert(out@ =~= start + escape(cs@.take(i as int)));
    }
    assert(cs@.take(i as int) =~= s@);
    out.push('"');
    assert(final(out)@ =~= old(out)@ + enc_str(s@));
}

fn push_field(out: &mut Vec<char>, key: &str, v: &String)
    ensures
        final(out)@ == old(out)@ + enc_field(key@, v@),
{
    push_json_str(out, key);
    out.push(':');
    push_json_str(out, v.as_str());
    assert(final(out)@ =~= old(out)@ + enc_field(key@, v@));
}

fn push_phrase(out: &mut Vec<char>, p: &DialoguePhrase)
    ensures
        final(out)@ == old(out)@ + enc_phrase(p@),
{
    out.push('{');
    push_field(out, "start_time", &p.start_time);
    out.push(',');
    push_field(out, "end_time", &p.end_time);
    out.push(',');
    push_field(out, "phrase", &p.phrase);
    out.push('}');
    proof {
        reveal(enc_phrase);
    }
    assert(final(out)@ =~= old(out)@ + enc_phrase(p@));
}

fn push_phrases(out: &mut Vec<char>, ps: &Vec<DialoguePhrase>)
    ensures
        final(out)@ == old(out)@ + enc_phrases(phrase_views(ps@)),
{
    out.push('[');
    let ghost start = out@;
    let mut i: usize = 0;
    while i < ps.len()
        invariant
            i <= ps@.len(),
            out@ == start + enc_phrase_items(phrase_views(ps@).take(i as int)),
        decreases ps@.len() - i,
    {
        if i > 0 {
            out.push(',');
        }
        push_phrase(out, &ps[i]);
        proof {
            let v = phrase_views(ps@);
            assert(v.take(i + 1) =~= v.take(i as int).push(v[i as int]));
            lemma_phrase_items_push(v.take(i as int), v[i as int]);
        }
        i = i + 1;
        assert(out@ =~= start + enc_phrase_items(phrase_views(ps@).take(i as int)));
    }
    assert(phrase_views(ps@).take(i as int) =~= phrase_views(ps@));
    out.push(']');
    assert(final(out)@ =~= old(out)@ + enc_phrases(phrase_views(ps@)));
}

fn push_moment(out: &mut Vec<char>, m: &VideoMoment)
    ensures
        final(out)@ == old(out)@ + enc_moment(m@),
{
    out.push('{');
    push_field(out, "start_time", &m.start_time);
    out.push(',');
    push_field(out, "end_time", &m.end_time);
    out.push(',');
    push_field(out, "category", &m.category);
    out.push(',');
    push_field(out, "description", &m.description);
    out.push(',');
    push_json_str(out, "dialogue");
    out.push(':');
    push_phrases(out, &m.dialogue);
    out.push('}');
    proof {
        reveal(enc_moment);
    }
    assert(final(out)@ =~= old(out)@ + enc_moment(m@));
}

fn push_moments(out: &mut Vec<char>, ms: &Vec<VideoMoment>)
    ensures
        final(out)@ == old(out)@ + enc_moments(moment_views(ms@)),
{
    out.push('[');
    let ghost start = out@;
    let mut i: usize = 0;
    while i < ms.len()
        invariant
            i <= ms@.len(),
            out@ == start + enc_moment_items(moment_views(ms@).take(i as int)),
        decreases ms@.len() - i,
    {
        if i > 0 {
            out.push(',');
        }
        push_moment(out, &ms[i]);
        proof {
            let v = moment_views(ms@);
            assert(v.take(i + 1) =~= v.take(i as int).push(v[i as int]));
            lemma_moment_items_push(v.take(i as int), v[i as int]);
        }
        i = i + 1;
        assert(out@ =~= start + enc_moment_items(moment_views(ms@).take(i as int)));
    }
    assert(moment_views(ms@).take(i as int) =~= moment_views(ms@));
    out.push(']');
    assert(final(out)@ =~= old(out)@ + enc_moments(moment_views(ms@)));
}

/// The text of a session file.
pub fn encode_session(state: &SessionState) -> (r: String)
    ensures
        r@ == enc_session(state@),
{
    let mut out: Vec<char> = Vec::new();
    out.push('{');
    push_field(&mut out, "youtube_url", &state.youtube_url);
    out.push(',');
    push_json_str(&mut out, "moments");
    out.push(':');
    push_moments(&mut out, &state.moments);
    out.push(',');
    push_field(&mut out, "temp_dir", &state.temp_dir);
    out.push('}');
    proof {
        reveal(enc_session);
    }
    assert(out@ =~= enc_session(state@));
    string_of(&out)
}


// ---------------------------------------------------------------- reading

/// The characters of `cs` from position `i` on.
pub open spec fn suffix(cs: Seq<char>, i: int) -> Seq<char> {
    cs.subrange(i, cs.len() as int)
}

pub open spec fn prepend_text(
    a: Seq<char>,
    r: Option<(Seq<char>, Seq<char>)>,
) -> Option<(Seq<char>, Seq<char>)> {
    match r {
        Some((v, rest)) => Some((a + v, rest)),
        None => None,
    }
}

fn skip_ws_exec(cs: &Vec<char>, i: usize) -> (j: usize)
    requires
        i <= cs@.len(),
    ensures
        i <= j <= cs@.len(),
        suffix(cs@, j as int) == skip_ws(suffix(cs@, i as int)),
{
    let mut j = i;
    while j < cs.len() && (cs[j] == ' ' || cs[j] == '\t' || cs[j] == '\n' || cs[j] == '\r')
        invariant
            i <= j <= cs@.len(),
            skip_ws(suffix(cs@, j as int)) == skip_ws(suffix(cs@, i as int)),
        decreases cs@.len() - j,
    {
        assert(suffix(cs@, j as int).drop_first() =~= suffix(cs@, j + 1));
        j = j + 1;
    }
    proof {
        if j < cs@.len() {
            assert(suffix(cs@, j as int)[0] == cs@[j as int]);
        }
    }
    j
}

fn token_exec(cs: &Vec<char>, i: usize, c: char) -> (r: Option<usize>)
    requires
        i <= cs@.len(),
    ensures
        r matches Some(j) ==> i < j <= cs@.len() && token(suffix(cs@, i as int), c) == Some(
            suffix(cs@, j as int),
        ),
        r is None ==> token(suffix(cs@, i as int), c) is None,
{
    let j = skip_ws_exec(cs, i);
    if j < cs.len() && cs[j] == c {
        assert(suffix(cs@, j as int)[0] == cs@[j as int]);
        assert(suffix(cs@, j as int).drop_first() =~= suffix(cs@, j + 1));
        Some(j + 1)
    } else {
        None
    }
}

fn hex_value_exec(c: char) -> (r: Option<u32>)
    ensures
        r matches Some(v) ==> hex_value(c) == Some(v as nat),
        r is None ==> hex_value(c) is None,
{
    if '0' <= c && c <= '9' {
        Some(c as u32 - '0' as u32)
    } else if 'a' <= c && c <= 'f' {
        Some(c as u32 - 'a' as u32 + 10)
    } else if 'A' <= c && c <= 'F' {
        Some(c as u32 - 'A' as u32 + 10)
    } else {
        None
    }
}

fn unescape_exec(cs: &Vec<char>, k: usize) -> (r: Option<(char, usize)>)
    requires
        k <= cs@.len(),
    ensures
        r matches Some((c, n)) ==> unescape(suffix(cs@, k as int)) == Some((c, n as nat)) && 2
            <= n <= cs@.len() - k,
        r is None ==> unescape(suffix(cs@, k as int)) is None,
{
    let ghost t = suffix(cs@, k as int);
    if cs.len() - k < 2 || cs[k] != '\\' {
        return None;
    }
    assert(t[0] == cs@[k as int] && t[1] == cs@[k + 1]);
    let e = cs[k + 1];
    if e == '"' {
        Some(('"', 2))
    } else if e == '\\' {
        Some(('\\', 2))
    } else if e == '/' {
        Some(('/', 2))
    } else if e == 'b' {
        Some(('\u{8}', 2))
    } else if e == 'f' {
        Some(('\u{c}', 2))
    } else if e == 'n' {
        Some(('\n', 2))
    } else if e == 'r' {
        Some(('\r', 2))
    } else if e == 't' {
        Some(('\t', 2))
    } else if e == 'u' && cs.len() - k >= 6 {
        assert(t[2] == cs@[k + 2] && t[3] == cs@[k + 3] && t[4] == cs@[k + 4] && t[5] == cs@[k
            + 5]);
        if cs[k + 2] == '0' && cs[k + 3] == '0' && (cs[k + 4] == '0' || cs[k + 4] == '1') {
            match hex_value_exec(cs[k + 5]) {
                Some(low) => {
                    let high: u32 = if cs[k + 4] == '1' {
                        1
                    } else {
                        0
                    };
                    let code = high * 16 + low;
                    Some(((code as u8) as char, 6))
                },
                None => None,
            }
        } else {
            None
        }
    } else {
        None
    }
}

fn str_body_exec(cs: &Vec<char>, i: usize) -> (r: Option<(Vec<char>, usize)>)
    requires
        i <= cs@.len(),
    ensures
        r matches Some((v, j)) ==> i < j <= cs@.len() && str_body(suffix(cs@, i as int)) == Some(
            (v@, suffix(cs@, j as int)),
        ),
        r is None ==> str_body(suffix(cs@, i as int)) is None,
{
    let mut acc: Vec<char> = Vec::new();
    let mut k = i;
    assert(Seq::<char>::empty() + Seq::<char>::empty() =~= Seq::<char>::empty());
    proof {
        match str_body(suffix(cs@, i as int)) {
            Some((v, rest)) => {
                assert(acc@ + v =~= v);
            },
            None => {},
        }
    }
    loop
        invariant
            i <= k <= cs@.len(),
            str_body(suffix(cs@, i as int)) == prepend_text(acc@, str_body(suffix(cs@, k as int))),
        decreases cs@.len() - k,
    {
        let ghost t = suffix(cs@, k as int);
        if k >= cs.len() {
            return None;
        }
        assert(t[0] == cs@[k as int]);
        let c = cs[k];
        if c == '"' {
            assert(t.drop_first() =~= suffix(cs@, k + 1));
            assert(acc@ + Seq::<char>::empty() =~= acc@);
            return Some((acc, k + 1));
        } else if c == '\\' {
            match unescape_exec(cs, k) {
                None => {
                    return None;
                },
                Some((d, n)) => {
                    assert(t.subrange(n as int, t.len() as int) =~= suffix(cs@, k + n));
                    proof {
                        match str_body(suffix(cs@, k + n)) {
                            Some((v, rest)) => {
                                assert(acc@.push(d) + v =~= acc@ + (seq![d] + v));
                            },
                            None => {},
                        }
                    }
                    acc.push(d);
                    k = k + n;
                },
            }
        } else if (c as u32) < 32 {
            return None;
        } else {
            assert(t.drop_first() =~= suffix(cs@, k + 1));
            proof {
                match str_body(suffix(cs@, k + 1)) {
                    Some((v, rest)) => {
                        assert(acc@.push(c) + v =~= acc@ + (seq![c] + v));
                    },
                    None => {},
                }
            }
            acc.push(c);
            k = k + 1;
        }
    }
}

fn json_str_exec(cs: &Vec<char>, i: usize) -> (r: Option<(Vec<char>, usize)>)
    requires
        i <= cs@.len(),
    ensures
        r matches Some((v, j)) ==> i < j <= cs@.len() && json_str(suffix(cs@, i as int)) == Some(
            (v@, suffix(cs@, j as int)),
        ),
        r is None ==> json_str(suffix(cs@, i as int)) is None,
{
    match token_exec(cs, i, '"') {
        None => None,
        Some(u) => str_body_exec(cs, u),
    }
}

fn chars_eq(a: &Vec<char>, b: &Vec<char>) -> (r: bool)
    ensures
        r == (a@ == b@),
{
    if a.len() != b.len() {
        return false;
    }
    let r = crate::text::occurs_at_exec(a, b, 0);
    assert(a@.subrange(0, b@.len() as int) =~= a@);
    r
}

fn field_key_exec(cs: &Vec<char>, i: usize, key: &str) -> (r: Option<usize>)
    requires
        i <= cs@.len(),
    ensures
        r matches Some(j) ==> i < j <= cs@.len() && field_key(suffix(cs@, i as int), key@) == Some(
            suffix(cs@, j as int),
        ),
        r is None ==> field_key(suffix(cs@, i as int), key@) is None,
{
    match json_str_exec(cs, i) {
        None => None,
        Some((k, j)) => {
            let expected = chars_of(key);
            if chars_eq(&k, &expected) {
                token_exec(cs, j, ':')
            } else {
                None
            }
        },
    }
}

fn field_exec(cs: &Vec<char>, i: usize, key: &str) -> (r: Option<(String, usize)>)
    requires
        i <= cs@.len(),
    ensures
        r matches Some((v, j)) ==> i < j <= cs@.len() && field(suffix(cs@, i as int), key@) == Some(
            (v@, suffix(cs@, j as int)),
        ),
        r is None ==> field(suffix(cs@, i as int), key@) is None,
{
    match field_key_exec(cs, i, key) {
        None => None,
        Some(j) => match json_str_exec(cs, j) {
            None => None,
            Some((v, k)) => Some((string_of(&v), k)),
        },
    }
}


fn parse_phrase_exec(cs: &Vec<char>, i: usize) -> (r: Option<(DialoguePhrase, usize)>)
    requires
        i <= cs@.len(),
    ensures
        r matches Some((p, j)) ==> i < j <= cs@.len() && parse_phrase(suffix(cs@, i as int))
            == Some((p@, suffix(cs@, j as int))),
        r is None ==> parse_phrase(suffix(cs@, i as int)) is None,
{
    proof {
        reveal(parse_phrase);
    }
    let t1 = match token_exec(cs, i, '{') {
        Some(j) => j,
        None => return None,
    };
    let (a, t2) = match field_exec(cs, t1, "start_time") {
        Some(x) => x,
        None => return None,
    };
    let t3 = match token_exec(cs, t2, ',') {
        Some(j) => j,
        None => return None,
    };
    let (b, t4) = match field_exec(cs, t3, "end_time") {
        Some(x) => x,
        None => return None,
    };
    let t5 = match token_exec(cs, t4, ',') {
        Some(j) => j,
        None => return None,
    };
    let (c, t6) = match field_exec(cs, t5, "phrase") {
        Some(x) => x,
        None => return None,
    };
    let t7 = match token_exec(cs, t6, '}') {
        Some(j) => j,
        None => return None,
    };
    Some((DialoguePhrase { start_time: a, end_time: b, phrase: c }, t7))
}

pub open spec fn prepend_phrases(
    a: Seq<PhraseView>,
    r: Option<(Seq<PhraseView>, Seq<char>)>,
) -> Option<(Seq<PhraseView>, Seq<char>)> {
    match r {
        Some((v, rest)) => Some((a + v, rest)),
        None => None,
    }
}

fn parse_phrases_exec(cs: &Vec<char>, i: usize) -> (r: Option<(Vec<DialoguePhrase>, usize)>)
    requires
        i <= cs@.len(),
    ensures
        r matches Some((ps, j)) ==> i < j <= cs@.len() && parse_phrases(suffix(cs@, i as int))
            == Some((phrase_views(ps@), suffix(cs@, j as int))),
        r is None ==> parse_phrases(suffix(cs@, i as int)) is None,
{
    proof {
        reveal(parse_phrases);
    }
    let u = match token_exec(cs, i, '[') {
        Some(j) => j,
        None => return None,
    };
    let mut acc: Vec<DialoguePhrase> = Vec::new();
    match token_exec(cs, u, ']') {
        Some(w) => {
            assert(phrase_views(acc@) =~= Seq::<PhraseView>::empty());
            return Some((acc, w));
        },
        None => {},
    }
    let mut k = u;
    proof {
        match phrase_items(suffix(cs@, u as int)) {
            Some((v, rest)) => {
                assert(phrase_views(acc@) + v =~= v);
            },
            None => {},
        }
    }
    loop
        invariant
            i < u <= k <= cs@.len(),
            token(suffix(cs@, u as int), ']') is None,
            parse_phrases(suffix(cs@, i as int)) == phrase_items(suffix(cs@, u as int)),
            phrase_items(suffix(cs@, u as int)) == prepend_phrases(
                phrase_views(acc@),
                phrase_items(suffix(cs@, k as int)),
            ),
        decreases cs@.len() - k,
    {
        let (p, k1) = match parse_phrase_exec(cs, k) {
            Some(x) => x,
            None => return None,
        };
        let ghost before = phrase_views(acc@);
        match token_exec(cs, k1, ',') {
            Some(k2) => {
                proof {
                    match phrase_items(suffix(cs@, k2 as int)) {
                        Some((v, rest)) => {
                            assert(before.push(p@) + v =~= before + (seq![p@] + v));
                        },
                        None => {},
                    }
                }
                acc.push(p);
                assert(phrase_views(acc@) =~= before.push(p@));
                k = k2;
            },
            None => {
                match token_exec(cs, k1, ']') {
                    Some(k3) => {
                        acc.push(p);
                        assert(phrase_views(acc@) =~= before + seq![p@]);
                        return Some((acc, k3));
                    },
                    None => return None,
                }
            },
        }
    }
}

fn parse_moment_exec(cs: &Vec<char>, i: usize) -> (r: Option<(VideoMoment, usize)>)
    requires
        i <= cs@.len(),
    ensures
        r matches Some((m, j)) ==> i < j <= cs@.len() && parse_moment(suffix(cs@, i as int))
            == Some((m@, suffix(cs@, j as int))),
        r is None ==> parse_moment(suffix(cs@, i as int)) is None,
{
    proof {
        reveal(parse_moment);
        reveal(moment_texts);
    }
    let t1 = match token_exec(cs, i, '{') {
        Some(j) => j,
        None => return None,
    };
    let (a, t2) = match field_exec(cs, t1, "start_time") {
        Some(x) => x,
        None => return None,
    };
    let t3 = match token_exec(cs, t2, ',') {
        Some(j) => j,
        None => return None,
    };
    let (b, t4) = match field_exec(cs, t3, "end_time") {
        Some(x) => x,
        None => return None,
    };
    let t5 = match token_exec(cs, t4, ',') {
        Some(j) => j,
        None => return None,
    };
    let (c, t6) = match field_exec(cs, t5, "category") {
        Some(x) => x,
        None => return None,
    };
    let t7 = match token_exec(cs, t6, ',') {
        Some(j) => j,
        None => return None,
    };
    let (d, t8) = match field_exec(cs, t7, "description") {
        Some(x) => x,
        None => return None,
    };
    let t9 = match token_exec(cs, t8, ',') {
        Some(j) => j,
        None => return None,
    };
    let t10 = match field_key_exec(cs, t9, "dialogue") {
        Some(j) => j,
        None => return None,
    };
    let (ps, t11) = match parse_phrases_exec(cs, t10) {
        Some(x) => x,
        None => return None,
    };
    let t12 = match token_exec(cs, t11, '}') {
        Some(j) => j,
        None => return None,
    };
    Some((VideoMoment { start_time: a, end_time: b, category: c, description: d, dialogue: ps }, t12))
}

pub open spec fn prepend_moments(
    a: Seq<MomentView>,
    r: Option<(Seq<MomentView>, Seq<char>)>,
) -> Option<(Seq<MomentView>, Seq<char>)> {
    match r {
        Some((v, rest)) => Some((a + v, rest)),
        None => None,
    }
}

fn parse_moments_exec(cs: &Vec<char>, i: usize) -> (r: Option<(Vec<VideoMoment>, usize)>)
    requires
        i <= cs@.len(),
    ensures
        r matches Some((ms, j)) ==> i < j <= cs@.len() && parse_moments(suffix(cs@, i as int))
            == Some((moment_views(ms@), suffix(cs@, j as int))),
        r is None ==> parse_moments(suffix(cs@, i as int)) is None,
{
    proof {
        reveal(parse_moments);
    }
    let u = match token_exec(cs, i, '[') {
        Some(j) => j,
        None => return None,
    };
    let mut acc: Vec<VideoMoment> = Vec::new();
    match token_exec(cs, u, ']') {
        Some(w) => {
            assert(moment_views(acc@) =~= Seq::<MomentView>::empty());
            return Some((acc, w));
        },
        None => {},
    }
    let mut k = u;
    proof {
        match moment_items(suffix(cs@, u as int)) {
            Some((v, rest)) => {
                assert(moment_views(acc@) + v =~= v);
            },
            None => {},
        }
    }
    loop
        invariant
            i < u <= k <= cs@.len(),
            token(suffix(cs@, u as int), ']') is None,
            parse_moments(suffix(cs@, i as int)) == moment_items(suffix(cs@, u as int)),
            moment_items(suffix(cs@, u as int)) == prepend_moments(
                moment_views(acc@),
                moment_items(suffix(cs@, k as int)),
            ),
        decreases cs@.len() - k,
    {
        let (m, k1) = match parse_moment_exec(cs, k) {
            Some(x) => x,
            None => return None,
        };
        let ghost before = moment_views(acc@);
        match token_exec(cs, k1, ',') {
            Some(k2) => {
                proof {
                    match moment_items(suffix(cs@, k2 as int)) {
                        Some((v, rest)) => {
                            assert(before.push(m@) + v =~= before + (seq![m@] + v));
                        },
                        None => {},
                    }
                }
                acc.push(m);
                assert(moment_views(acc@) =~= before.push(m@));
                k = k2;
            },
            None => {
                match token_exec(cs, k1, ']') {
                    Some(k3) => {
                        acc.push(m);
                        assert(moment_views(acc@) =~= before + seq![m@]);
                        return Some((acc, k3));
                    },
                    None => return None,
                }
            },
        }
    }
}

/// Reads a session file; `None` when the text is not one.
pub fn decode_session(text: &str) -> (r: Option<SessionState>)
    ensures
        r matches Some(s) ==> decode_session_spec(text@) == Some(s@),
        r is None ==> decode_session_spec(text@) is None,
{
    proof {
        reveal(parse_session);
    }
    let cs = chars_of(text);
    assert(suffix(cs@, 0) =~= text@);
    let t1 = match token_exec(&cs, 0, '{') {
        Some(j) => j,
        None => return None,
    };
    let (a, t2) = match field_exec(&cs, t1, "youtube_url") {
        Some(x) => x,
        None => return None,
    };
    let t3 = match token_exec(&cs, t2, ',') {
        Some(j) => j,
        None => return None,
    };
    let t4 = match field_key_exec(&cs, t3, "moments") {
        Some(j) => j,
        None => return None,
    };
    let (ms, t5) = match parse_moments_exec(&cs, t4) {
        Some(x) => x,
        None => return None,
    };
    let t6 = match token_exec(&cs, t5, ',') {
        Some(j) => j,
        None => return None,
    };
    let (b, t7) = match field_exec(&cs, t6, "temp_dir") {
        Some(x) => x,
        None => return None,
    };
    let t8 = match token_exec(&cs, t7, '}') {
        Some(j) => j,
        None => return None,
    };
    let end = skip_ws_exec(&cs, t8);
    if end < cs.len() {
        return None;
    }
    Some(SessionState { youtube_url: a, moments: ms, temp_dir: b })
}

/// Writing a session and reading the text back gives the same session.
pub proof fn lemma_encode_decode(state: SessionState, text: Seq<char>)
    requires
        text == enc_session(state@),
    ensures
        decode_session_spec(text) == Some(state@),
{
    lemma_session_round_trip(state@);
}

} // verus!
