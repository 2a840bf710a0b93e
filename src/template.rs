use vstd::prelude::*;

use crate::text::{chars_of, string_of};

verus! {

/// Where the comment scanner stands.
#[derive(Debug, Clone, Copy, PartialEq, Eq, Structural)]
pub enum ScanMode {
    /// Ordinary JSON text.
    Code,
    /// Inside a string literal.
    Text,
    /// Inside a `//` comment, up to the end of the line.
    Comment,
}

/// How many backslashes `s` ends with.
pub open spec fn trailing_backslashes(s: Seq<char>) -> nat
    decreases s.len(),
{
    if s.len() > 0 && s.last() == '\\' {
        1 + trailing_backslashes(s.drop_last())
    } else {
        0
    }
}

/// The text kept from `s[i..]`, given the scanner's mode and what was kept so far.
///
/// Outside string literals `//` starts a comment that runs to the end of the
/// line; the line break itself is kept. A quote opens a string literal, and
/// closes it unless an odd number of backslashes precedes it in the kept text.
pub open spec fn uncomment(s: Seq<char>, i: nat, mode: ScanMode, out: Seq<char>) -> Seq<char>
    decreases s.len() - i,
{
    if i >= s.len() {
        out
    } else {
        let c = s[i as int];
        match mode {
            ScanMode::Comment => if c == '\n' {
                uncomment(s, i + 1, ScanMode::Code, out.push(c))
            } else {
                uncomment(s, i + 1, ScanMode::Comment, out)
            },
            ScanMode::Text => if c == '"' {
                let next = if trailing_backslashes(out) % 2 == 0 {
                    ScanMode::Code
                } else {
                    ScanMode::Text
                };
                uncomment(s, i + 1, next, out.push(c))
            } else {
                uncomment(s, i + 1, ScanMode::Text, out.push(c))
            },
            ScanMode::Code => if c == '"' {
                uncomment(s, i + 1, ScanMode::Text, out.push(c))
            } else if c == '/' && i + 1 < s.len() && s[i + 1 as int] == '/' {
                uncomment(s, i + 2, ScanMode::Comment, out)
            } else {
                uncomment(s, i + 1, ScanMode::Code, out.push(c))
            },
        }
    }
}

fn count_trailing_backslashes(out: &Vec<char>) -> (r: usize)
    ensures
        r == trailing_backslashes(out@),
{
    let mut k = out.len();
    assert(out@.take(k as int) =~= out@);
    while k > 0 && out[k - 1] == '\\'
        invariant
            k <= out@.len(),
            trailing_backslashes(out@) == (out@.len() - k) + trailing_backslashes(
                out@.take(k as int),
            ),
        decreases k,
    {
        assert(out@.take(k as int).drop_last() =~= out@.take(k - 1));
        k = k - 1;
    }
    proof {
        if k > 0 {
            assert(out@.take(k as int).last() == out@[k - 1]);
        }
        assert(trailing_backslashes(out@.take(k as int)) == 0);
    }
    out.len() - k
}

/// Removes `//` line comments that stand outside string literals, so that a
/// commented template reads as plain JSON.
pub fn remove_js_comments(content: &str) -> (r: String)
    ensures
        r@ == uncomment(content@, 0, ScanMode::Code, Seq::empty()),
{
    let cs = chars_of(content);
    let mut out: Vec<char> = Vec::new();
    let mut mode = ScanMode::Code;
    let mut i: usize = 0;
    while i < cs.len()
        invariant
            i <= cs@.len(),
            cs@ == content@,
            uncomment(cs@, i as nat, mode, out@) == uncomment(
                cs@,
                0,
                ScanMode::Code,
                Seq::empty(),
            ),
        decreases cs@.len() - i,
    {
        let c = cs[i];
        match mode {
            ScanMode::Comment => {
                if c == '\n' {
                    out.push(c);
                    mode = ScanMode::Code;
                }
                i = i + 1;
            },
            ScanMode::Text => {
                if c == '"' {
                    let n = count_trailing_backslashes(&out);
                    if n % 2 == 0 {
                        mode = ScanMode::Code;
                    }
                }
                out.push(c);
                i = i + 1;
            },
            ScanMode::Code => {
                if c == '"' {
                    out.push(c);
                    mode = ScanMode::Text;
                    i = i + 1;
                } else if c == '/' && i + 1 < cs.len() && cs[i + 1] == '/' {
                    mode = ScanMode::Comment;
                    i = i + 2;
                } else {
                    out.push(c);
                    i = i + 1;
                }
            },
        }
    }
    string_of(&out)
}

} // verus!
