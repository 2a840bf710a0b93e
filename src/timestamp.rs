use vstd::prelude::*;

use crate::text::{
    chars_of, pad2, parse_u64, parse_u64_spec, push_pad2, split_on, split_ranges, string_of,
    occurs_at, occurs_at_exec,
};

verus! {

/// `HH:MM:SS` for a number of seconds; hours take as many digits as they need.
pub open spec fn timestamp_text(secs: nat) -> Seq<char> {
    pad2(secs / 3600) + seq![':'] + pad2((secs % 3600) / 60) + seq![':'] + pad2(secs % 60)
}

/// Why a timestamp could not be read.
#[derive(Debug, Clone, Copy, PartialEq, Eq, Structural)]
pub enum TimestampError {
    /// The text does not have exactly three `:`-separated fields.
    FieldCount,
    /// A field is not an unsigned decimal number that fits in a `u64`.
    BadField,
    /// The fields are numbers, but the total number of seconds does not fit in a `u64`.
    OutOfRange,
}

/// Seconds named by three fields read as hours, minutes and seconds.
pub open spec fn field_seconds(f: Seq<Seq<char>>) -> int {
    parse_u64_spec(f[0]).unwrap() * 3600 + parse_u64_spec(f[1]).unwrap() * 60
        + parse_u64_spec(f[2]).unwrap()
}

pub open spec fn fields_are_numbers(f: Seq<Seq<char>>) -> bool {
    parse_u64_spec(f[0]).is_some() && parse_u64_spec(f[1]).is_some() && parse_u64_spec(
        f[2],
    ).is_some()
}

/// What reading `s` as `H:M:S` gives.
pub open spec fn parse_timestamp_spec(s: Seq<char>) -> Result<u64, TimestampError> {
    let f = split_on(s, ':');
    if f.len() != 3 {
        Err(TimestampError::FieldCount)
    } else if !fields_are_numbers(f) {
        Err(TimestampError::BadField)
    } else if field_seconds(f) > u64::MAX {
        Err(TimestampError::OutOfRange)
    } else {
        Ok(field_seconds(f) as u64)
    }
}

/// Formats seconds as `HH:MM:SS`.
pub fn format_seconds_to_timestamp(seconds: u64) -> (r: String)
    ensures
        r@ == timestamp_text(seconds as nat),
{
    let mut out: Vec<char> = Vec::new();
    push_pad2(&mut out, seconds / 3600);
    out.push(':');
    push_pad2(&mut out, (seconds % 3600) / 60);
    out.push(':');
    push_pad2(&mut out, seconds % 60);
    assert(out@ =~= timestamp_text(seconds as nat));
    string_of(&out)
}

/// Reads a `H:M:S` timestamp as a number of seconds.
pub fn parse_timestamp_to_seconds(timestamp: &str) -> (r: Result<u64, TimestampError>)
    ensures
        r == parse_timestamp_spec(timestamp@),
{
    let cs = chars_of(timestamp);
    let parts = split_ranges(&cs, ':');
    if parts.len() != 3 {
        return Err(TimestampError::FieldCount);
    }
    let ghost f = split_on(cs@, ':');
    assert(f[0] == cs@.subrange(parts@[0].0 as int, parts@[0].1 as int));
    assert(f[1] == cs@.subrange(parts@[1].0 as int, parts@[1].1 as int));
    assert(f[2] == cs@.subrange(parts@[2].0 as int, parts@[2].1 as int));
    let h = parse_u64(&cs, parts[0].0, parts[0].1);
    let m = parse_u64(&cs, parts[1].0, parts[1].1);
    let s = parse_u64(&cs, parts[2].0, parts[2].1);
    match (h, m, s) {
        (Some(h), Some(m), Some(s)) => {
            if h > (u64::MAX - s) / 3600 {
                assert(h * 3600 + m * 60 + s > u64::MAX) by (nonlinear_arith)
                    requires
                        h > (u64::MAX - s) / 3600,
                        m >= 0,
                ;
                return Err(TimestampError::OutOfRange);
            }
            let hs = h * 3600 + s;
            if m > (u64::MAX - hs) / 60 {
                assert(m * 60 + hs > u64::MAX) by (nonlinear_arith)
                    requires
                        m > (u64::MAX - hs) / 60,
                ;
                return Err(TimestampError::OutOfRange);
            }
            Ok(hs + m * 60)
        },
        _ => Err(TimestampError::BadField),
    }
}

} // verus!
