use vstd::prelude::*;

use crate::text::{
    chars_of, find_exec, find_from, line_ranges, lines_of, parse_u64, parse_u64_spec, pieces,
    slice_chars, split_on, split_ranges, trim, trim_window,
};

verus! {

/// A field read as a `u32`.
pub open spec fn u32_field(s: Seq<char>) -> Option<u32> {
    match parse_u64_spec(s) {
        Some(v) => if v <= u32::MAX {
            Some(v as u32)
        } else {
            None
        },
        None => None,
    }
}

/// The crop a detector line reports: after its first `crop=`, the first
/// four `:`-separated fields as width, height, x and y (the fourth trimmed).
pub open spec fn crop_of_line(l: Seq<char>) -> Option<(u32, u32, u32, u32)> {
    match find_from(l, "crop="@, 0) {
        None => None,
        Some(p) => {
            let f = split_on(l.subrange(p + 5int, l.len() as int), ':');
            if f.len() >= 4 && u32_field(f[0]) is Some && u32_field(f[1]) is Some && u32_field(
                f[2],
            ) is Some && u32_field(trim(f[3])) is Some {
                Some(
                    (
                        u32_field(f[0])->0,
                        u32_field(f[1])->0,
                        u32_field(f[2])->0,
                        u32_field(trim(f[3]))->0,
                    ),
                )
            } else {
                None
            }
        },
    }
}

/// The crop of the last line that reports one.
pub open spec fn last_crop(lines: Seq<Seq<char>>) -> Option<(u32, u32, u32, u32)>
    decreases lines.len(),
{
    if lines.len() == 0 {
        None
    } else {
        match crop_of_line(lines.last()) {
            Some(c) => Some(c),
            None => last_crop(lines.drop_last()),
        }
    }
}

fn u32_field_exec(cs: &Vec<char>, lo: usize, hi: usize) -> (r: Option<u32>)
    requires
        lo <= hi <= cs@.len(),
    ensures
        r == u32_field(cs@.subrange(lo as int, hi as int)),
{
    match parse_u64(cs, lo, hi) {
        Some(v) => if v <= u32::MAX as u64 {
            Some(v as u32)
        } else {
            None
        },
        None => None,
    }
}

/// Reads the crop of one line.
pub fn crop_of_line_exec(line: &Vec<char>) -> (r: Option<(u32, u32, u32, u32)>)
    ensures
        r == crop_of_line(line@),
{
    let marker = chars_of("crop=");
    proof {
        reveal_strlit("crop=");
        assert(marker@.len() == 5);
    }
    let found = find_exec(line, &marker);
    assert(marker@ == "crop="@);
    let p = match found {
        Some(p) => p,
        None => {
            assert(find_from(line@, "crop="@, 0) is None);
            return None;
        },
    };
    let n = line.len();
    assert(p + 5 <= n);
    let rest = slice_chars(line, p + 5, n);
    let f = split_ranges(&rest, ':');
    if f.len() < 4 {
        return None;
    }
    let ghost fs = split_on(rest@, ':');
    assert(fs[0] == rest@.subrange(f@[0].0 as int, f@[0].1 as int));
    assert(fs[1] == rest@.subrange(f@[1].0 as int, f@[1].1 as int));
    assert(fs[2] == rest@.subrange(f@[2].0 as int, f@[2].1 as int));
    assert(fs[3] == rest@.subrange(f@[3].0 as int, f@[3].1 as int));
    let w = u32_field_exec(&rest, f[0].0, f[0].1);
    let h = u32_field_exec(&rest, f[1].0, f[1].1);
    let x = u32_field_exec(&rest, f[2].0, f[2].1);
    let (a, b) = trim_window(&rest, f[3].0, f[3].1);
    let y = u32_field_exec(&rest, a, b);
    match (w, h, x, y) {
        (Some(w), Some(h), Some(x), Some(y)) => Some((w, h, x, y)),
        _ => None,
    }
}

/// The last crop that a crop detector's log reports, if any line reports one.
pub fn parse_cropdetect_output(stderr: &str) -> (r: Option<(u32, u32, u32, u32)>)
    ensures
        r == last_crop(lines_of(stderr@)),
{
    let cs = chars_of(stderr);
    let lines = line_ranges(&cs);
    let ghost ls = lines_of(cs@);
    let mut found: Option<(u32, u32, u32, u32)> = None;
    let mut j: usize = 0;
    assert(ls.take(0) =~= Seq::<Seq<char>>::empty());
    while j < lines.len()
        invariant
            pieces(cs@, lines@) == ls,
            forall|k: int| 0 <= k < lines@.len() ==> (#[trigger] lines@[k]).0 <= lines@[k].1 <= cs@.len(),
            j <= lines@.len(),
            found == last_crop(ls.take(j as int)),
        decreases lines@.len() - j,
    {
        let (lo, hi) = lines[j];
        let line = slice_chars(&cs, lo, hi);
        assert(line@ == ls[j as int]);
        assert(ls.take(j + 1).drop_last() =~= ls.take(j as int));
        assert(ls.take(j + 1).last() == ls[j as int]);
        match crop_of_line_exec(&line) {
            Some(c) => {
                found = Some(c);
            },
            None => {},
        }
        j = j + 1;
    }
    assert(ls.take(j as int) =~= ls);
    assert(cs@ == stderr@);
    found
}

} // verus!
