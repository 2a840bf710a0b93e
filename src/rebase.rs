use vstd::prelude::*;

use crate::text::{
    all_digits, decimal, digit_chars, digit_value, digits_value, is_digit, pad2, parse_u64_spec,
    split_on, unsigned_body,
};
use crate::timestamp::{
    field_seconds, fields_are_numbers, format_seconds_to_timestamp, parse_timestamp_spec,
    parse_timestamp_to_seconds, timestamp_text,
};
use crate::types::{
    moment_views, phrase_views, DialoguePhrase, MomentView, PhraseView, VideoMoment,
};

verus! {

/// The seconds a timestamp names, or 0 where it cannot be read.
pub open spec fn seconds_or_zero(t: Seq<char>) -> nat {
    match parse_timestamp_spec(t) {
        Ok(v) => v as nat,
        Err(_) => 0,
    }
}

/// A chunk-relative timestamp moved by `offset` seconds: unchanged for a
/// zero offset, else re-rendered as `HH:MM:SS` from the seconds it names (0
/// if unreadable) plus the offset, saturating at `u64::MAX`.
pub open spec fn rebase_text(t: Seq<char>, offset: u64) -> Seq<char> {
    if offset == 0 {
        t
    } else {
        let s = (seconds_or_zero(t) + offset) as nat;
        timestamp_text(if s > u64::MAX { u64::MAX as nat } else { s })
    }
}

pub open spec fn rebase_phrase(p: PhraseView, offset: u64) -> PhraseView {
    PhraseView {
        start_time: rebase_text(p.start_time, offset),
        end_time: rebase_text(p.end_time, offset),
        phrase: p.phrase,
    }
}

/// A moment with all its times, and those of its dialogue, moved by `offset`.
pub open spec fn rebase_moment(m: MomentView, offset: u64) -> MomentView {
    MomentView {
        start_time: rebase_text(m.start_time, offset),
        end_time: rebase_text(m.end_time, offset),
        category: m.category,
        description: m.description,
        dialogue: m.dialogue.map_values(|p: PhraseView| rebase_phrase(p, offset)),
    }
}

proof fn lemma_digit_chars(d: nat)
    requires
        d < 10,
    ensures
        is_digit(digit_chars()[d as int]),
        digit_value(digit_chars()[d as int]) == d,
        digit_chars()[d as int] != ':',
        digit_chars()[d as int] != '+',
{
}

proof fn lemma_decimal(n: nat)
    ensures
        decimal(n).len() > 0,
        all_digits(decimal(n)),
        digits_value(decimal(n)) == n,
    decreases n,
{
    lemma_digit_chars(n % 10);
    if n < 10 {
        assert(decimal(n).drop_last() =~= Seq::<char>::empty());
        assert(digits_value(Seq::<char>::empty()) == 0);
    } else {
        lemma_decimal(n / 10);
        let d = decimal(n);
        assert(d.drop_last() =~= decimal(n / 10));
        assert(d.last() == digit_chars()[(n % 10) as int]);
        assert(digits_value(d) == (n / 10) * 10 + n % 10);
        assert((n / 10) * 10 + n % 10 == n) by (nonlinear_arith);
        assert forall|i: int| 0 <= i < d.len() implies is_digit(#[trigger] d[i]) by {
            if i < d.len() - 1 {
                assert(d[i] == decimal(n / 10)[i]);
            }
        }
    }
}

proof fn lemma_leading_zero(s: Seq<char>)
    ensures
        digits_value(seq!['0'] + s) == digits_value(s),
    decreases s.len(),
{
    if s.len() > 0 {
        lemma_leading_zero(s.drop_last());
        assert((seq!['0'] + s).drop_last() =~= seq!['0'] + s.drop_last());
    } else {
        assert((seq!['0'] + s).drop_last() =~= s);
    }
}

proof fn lemma_pad2(n: nat)
    ensures
        pad2(n).len() > 0,
        pad2(n)[0] != '+',
        all_digits(pad2(n)),
        digits_value(pad2(n)) == n,
        parse_u64_spec(pad2(n)) == (if n <= u64::MAX { Some(n as u64) } else { None::<u64> }),
        forall|i: int| 0 <= i < pad2(n).len() ==> #[trigger] pad2(n)[i] != ':',
{
    lemma_decimal(n);
    let p = pad2(n);
    if n < 10 {
        lemma_leading_zero(decimal(n));
        assert forall|i: int| 0 <= i < p.len() implies is_digit(#[trigger] p[i]) by {
            if i > 0 {
                assert(p[i] == decimal(n)[i - 1]);
            }
        }
    }
    assert(unsigned_body(p) == p);
    assert forall|i: int| 0 <= i < p.len() implies #[trigger] p[i] != ':' by {
        assert(is_digit(p[i]));
    }
}

/// Splitting `x + b` where `b` holds no separator extends the last piece of `x`.
proof fn lemma_split_extend(x: Seq<char>, b: Seq<char>, sep: char)
    requires
        forall|i: int| 0 <= i < b.len() ==> #[trigger] b[i] != sep,
    ensures
        split_on(x + b, sep).len() == split_on(x, sep).len(),
        split_on(x + b, sep) == split_on(x, sep).update(
            split_on(x, sep).len() - 1,
            split_on(x, sep).last() + b,
        ),
    decreases b.len(),
{
    crate::text::lemma_split_on_nonempty(x, sep);
    if b.len() == 0 {
        assert(x + b =~= x);
        assert(split_on(x, sep).last() + b =~= split_on(x, sep).last());
        assert(split_on(x, sep).update(split_on(x, sep).len() - 1, split_on(x, sep).last())
            =~= split_on(x, sep));
    } else {
        let b0 = b.drop_last();
        lemma_split_extend(x, b0, sep);
        assert((x + b).drop_last() =~= x + b0);
        assert((x + b).last() == b.last());
        let r = split_on(x, sep);
        assert(b[b.len() - 1] != sep);
        let r1 = split_on(x + b0, sep);
        assert(r1.last() == r.last() + b0);
        assert(split_on(x + b, sep) == r1.update(r1.len() - 1, r1.last().push(b.last())));
        assert(r.last() + b0 + seq![b.last()] =~= r.last() + b);
        assert(r1.last().push(b.last()) =~= r.last() + b);
        assert(r1.len() == r.len());
        assert(split_on(x + b, sep) =~= r.update(r.len() - 1, r.last() + b));
    }
}

proof fn lemma_timestamp_round_trip(n: nat)
    requires
        n <= u64::MAX,
    ensures
        parse_timestamp_spec(timestamp_text(n)) == Ok::<u64, crate::timestamp::TimestampError>(
            n as u64,
        ),
{
    let h = n / 3600;
    let m = (n % 3600) / 60;
    let s = n % 60;
    lemma_pad2(h);
    lemma_pad2(m);
    lemma_pad2(s);
    assert(h <= u64::MAX);
    let e = Seq::<char>::empty();
    lemma_split_extend(e, pad2(h), ':');
    assert(e + pad2(h) =~= pad2(h));
    assert(split_on(e, ':') == seq![e]);
    assert(split_on(pad2(h), ':') =~= seq![pad2(h)]);
    let a = pad2(h) + seq![':'];
    assert(a.drop_last() =~= pad2(h));
    assert(split_on(a, ':') =~= seq![pad2(h), e]);
    lemma_split_extend(a, pad2(m), ':');
    let b = a + pad2(m);
    assert(split_on(b, ':') =~= seq![pad2(h), e + pad2(m)]);
    assert(e + pad2(m) =~= pad2(m));
    let c = b + seq![':'];
    assert(c.drop_last() =~= b);
    assert(split_on(c, ':') =~= seq![pad2(h), pad2(m), e]);
    lemma_split_extend(c, pad2(s), ':');
    assert(e + pad2(s) =~= pad2(s));
    assert(c + pad2(s) =~= timestamp_text(n));
    let f = split_on(timestamp_text(n), ':');
    assert(f =~= seq![pad2(h), pad2(m), pad2(s)]);
    assert(fields_are_numbers(f));
    assert(h * 3600 + m * 60 + s == n) by (nonlinear_arith)
        requires
            h == n / 3600,
            m == (n % 3600) / 60,
            s == n % 60,
    ;
    assert(field_seconds(f) == n);
}

/// Rebasing by zero leaves a moment as it is.
pub proof fn lemma_rebase_zero(m: MomentView)
    ensures
        rebase_moment(m, 0) == m,
{
    assert(m.dialogue.map_values(|p: PhraseView| rebase_phrase(p, 0)) =~= m.dialogue);
}

proof fn lemma_rebase_text_twice(t: Seq<char>, a: u64, b: u64)
    requires
        a + b <= u64::MAX,
    ensures
        rebase_text(rebase_text(t, a), b) == rebase_text(t, (a + b) as u64),
{
    if a != 0 && b != 0 {
        let s = (seconds_or_zero(t) + a) as nat;
        let s1 = if s > u64::MAX { u64::MAX as nat } else { s };
        lemma_timestamp_round_trip(s1);
    }
}

/// Rebasing by `a` and then by `b` is rebasing by `a + b`.
pub proof fn lemma_rebase_twice(m: MomentView, a: u64, b: u64)
    requires
        a + b <= u64::MAX,
    ensures
        rebase_moment(rebase_moment(m, a), b) == rebase_moment(m, (a + b) as u64),
{
    lemma_rebase_text_twice(m.start_time, a, b);
    lemma_rebase_text_twice(m.end_time, a, b);
    assert forall|i: int| 0 <= i < m.dialogue.len() implies rebase_phrase(
        rebase_phrase(#[trigger] m.dialogue[i], a),
        b,
    ) == rebase_phrase(m.dialogue[i], (a + b) as u64) by {
        lemma_rebase_text_twice(m.dialogue[i].start_time, a, b);
        lemma_rebase_text_twice(m.dialogue[i].end_time, a, b);
    }
    assert(rebase_moment(rebase_moment(m, a), b).dialogue =~= rebase_moment(
        m,
        (a + b) as u64,
    ).dialogue);
}


/// Moves one timestamp from chunk-relative to source-relative time.
pub fn rebase_timestamp(t: &String, offset: u64) -> (r: String)
    ensures
        r@ == rebase_text(t@, offset),
{
    if offset == 0 {
        return t.clone();
    }
    let base: u64 = match parse_timestamp_to_seconds(t.as_str()) {
        Ok(v) => v,
        Err(_) => 0,
    };
    let secs = base.saturating_add(offset);
    format_seconds_to_timestamp(secs)
}

/// Moves every time of a dialogue, keeping the phrases and their order.
pub fn rebase_dialogue(d: &Vec<DialoguePhrase>, offset: u64) -> (r: Vec<DialoguePhrase>)
    ensures
        phrase_views(r@) == phrase_views(d@).map_values(|p: PhraseView| rebase_phrase(p, offset)),
{
    let mut out: Vec<DialoguePhrase> = Vec::new();
    let mut i: usize = 0;
    while i < d.len()
        invariant
            i <= d@.len(),
            out@.len() == i,
            forall|k: int| 0 <= k < i ==> (#[trigger] out@[k])@ == rebase_phrase(d@[k]@, offset),
        decreases d@.len() - i,
    {
        let p = &d[i];
        let q = DialoguePhrase {
            start_time: rebase_timestamp(&p.start_time, offset),
            end_time: rebase_timestamp(&p.end_time, offset),
            phrase: p.phrase.clone(),
        };
        out.push(q);
        i = i + 1;
    }
    assert(phrase_views(out@) =~= phrase_views(d@).map_values(
        |p: PhraseView| rebase_phrase(p, offset),
    ));
    out
}

/// Moves every time of every moment by the chunk's start offset, keeping the
/// moments, their text and their order.
pub fn rebase_moments(moments: &Vec<VideoMoment>, offset: u64) -> (r: Vec<VideoMoment>)
    ensures
        moment_views(r@) == moment_views(moments@).map_values(
            |m: MomentView| rebase_moment(m, offset),
        ),
{
    let mut out: Vec<VideoMoment> = Vec::new();
    let mut i: usize = 0;
    while i < moments.len()
        invariant
            i <= moments@.len(),
            out@.len() == i,
            forall|k: int|
                0 <= k < i ==> (#[trigger] out@[k])@ == rebase_moment(moments@[k]@, offset),
        decreases moments@.len() - i,
    {
        let m = &moments[i];
        let q = VideoMoment {
            start_time: rebase_timestamp(&m.start_time, offset),
            end_time: rebase_timestamp(&m.end_time, offset),
            category: m.category.clone(),
            description: m.description.clone(),
            dialogue: rebase_dialogue(&m.dialogue, offset),
        };
        out.push(q);
        i = i + 1;
    }
    assert(moment_views(out@) =~= moment_views(moments@).map_values(
        |m: MomentView| rebase_moment(m, offset),
    ));
    out
}

} // verus!
