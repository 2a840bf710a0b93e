use vstd::prelude::*;

use crate::text::{chars_of, decimal, occurs_at_exec, pad2, push_decimal, push_pad2, starts_with, string_of};

verus! {

/// What `str::to_lowercase` makes of a text.
pub uninterp spec fn lower_of(s: Seq<char>) -> Seq<char>;

/// Relies on `str::to_lowercase`: the result depends on the characters alone.
#[verifier::external_body]
pub(crate) fn lowercase(s: &str) -> (r: String)
    ensures
        r@ == lower_of(s@),
{
    s.to_lowercase()
}

/// A web address: it starts with `http://` or `https://`.
pub open spec fn is_web_address(s: Seq<char>) -> bool {
    starts_with(s, "http://"@) || starts_with(s, "https://"@)
}

/// Whether an already lower-cased address uses the http or https scheme.
pub fn has_web_scheme(lowered: &str) -> (r: bool)
    ensures
        r == is_web_address(lowered@),
{
    let cs = chars_of(lowered);
    let http = chars_of("http://");
    let https = chars_of("https://");
    occurs_at_exec(&cs, &http, 0) || occurs_at_exec(&cs, &https, 0)
}

/// Whether `url`, compared without regard to case, is an http or https address.
pub fn validate_media_url(url: &str) -> (r: bool)
    ensures
        r == is_web_address(lower_of(url@)),
{
    let lowered = lowercase(url);
    has_web_scheme(lowered.as_str())
}

/// `H:MM:SS.CC` for a non-negative number of milliseconds: hours unpadded,
/// centiseconds truncated.
pub open spec fn ass_text(ms: nat) -> Seq<char> {
    let secs = ms / 1000;
    decimal(secs / 3600) + seq![':'] + pad2((secs % 3600) / 60) + seq![':'] + pad2(secs % 60)
        + seq!['.'] + pad2((ms % 1000) / 10)
}

/// The same fields for a negative time: each non-zero field carries a minus
/// sign, as integer division toward zero gives them.
pub open spec fn signed_field(v: nat, negative: bool, padded: bool) -> Seq<char> {
    if negative && v != 0 {
        seq!['-'] + decimal(v)
    } else if padded {
        pad2(v)
    } else {
        decimal(v)
    }
}

pub open spec fn ass_text_signed(ms: int) -> Seq<char> {
    let negative = ms < 0;
    let a: nat = if negative { (-ms) as nat } else { ms as nat };
    let secs = a / 1000;
    signed_field(secs / 3600, negative, false) + seq![':'] + signed_field(
        (secs % 3600) / 60,
        negative,
        true,
    ) + seq![':'] + signed_field(secs % 60, negative, true) + seq!['.'] + signed_field(
        (a % 1000) / 10,
        negative,
        true,
    )
}

fn push_field(out: &mut Vec<char>, v: u64, negative: bool, padded: bool)
    ensures
        final(out)@ == old(out)@ + signed_field(v as nat, negative, padded),
{
    if negative && v != 0 {
        out.push('-');
        push_decimal(out, v);
        assert(final(out)@ =~= old(out)@ + signed_field(v as nat, negative, padded));
    } else if padded {
        push_pad2(out, v);
    } else {
        push_decimal(out, v);
    }
}

/// Formats milliseconds as a subtitle timestamp `H:MM:SS.CC`.
pub fn format_ass_timestamp(ms: i64) -> (r: String)
    ensures
        r@ == ass_text_signed(ms as int),
        ms >= 0 ==> r@ == ass_text(ms as nat),
{
    let negative = ms < 0;
    let a: u64 = if negative {
        (-(ms as i128)) as u64
    } else {
        ms as u64
    };
    let secs = a / 1000;
    let mut out: Vec<char> = Vec::new();
    push_field(&mut out, secs / 3600, negative, false);
    out.push(':');
    push_field(&mut out, (secs % 3600) / 60, negative, true);
    out.push(':');
    push_field(&mut out, secs % 60, negative, true);
    out.push('.');
    push_field(&mut out, (a % 1000) / 10, negative, true);
    assert(out@ =~= ass_text_signed(ms as int));
    proof {
        if ms >= 0 {
            assert(ass_text_signed(ms as int) =~= ass_text(ms as nat));
        }
    }
    string_of(&out)
}

} // verus!
