use vstd::prelude::*;

use crate::media::{lower_of, lowercase};
use crate::text::{chars_of, ends_with, parse_u64, parse_u64_spec, same_text};

verus! {

/// A horizontal or vertical position: pixels, or a keyword (`center`, or a
/// whole-number percentage of the container such as `25%`).
#[derive(Debug, Clone)]
pub enum PositionValue {
    Pixels(i32),
    Keyword(String),
}

/// A width or height: pixels, or a keyword (`full`, or a whole-number
/// percentage of the reference such as `50%`).
#[derive(Debug, Clone)]
pub enum SizeValue {
    Pixels(u32),
    Keyword(String),
}

/// `pct` percent of `reference`, rounded down.
pub open spec fn percent_of(reference: nat, pct: nat) -> nat {
    reference * pct / 100
}

/// The percentage a keyword names: a number followed by `%`.
pub open spec fn keyword_percent(k: Seq<char>) -> Option<u64> {
    if ends_with(k, "%"@) && k.len() > 0 {
        parse_u64_spec(k.drop_last())
    } else {
        None
    }
}

pub open spec fn clamp_i32(v: nat) -> i32 {
    if v > i32::MAX {
        i32::MAX
    } else {
        v as i32
    }
}

pub open spec fn clamp_u32(v: nat) -> u32 {
    if v > u32::MAX {
        u32::MAX
    } else {
        v as u32
    }
}

/// Where a lower-cased position keyword puts an element of size `element`
/// in a container of size `container`: centred (the difference wraps as
/// unsigned arithmetic does), at a percentage, or at 0.
pub open spec fn position_keyword(k: Seq<char>, container: u32, element: u32) -> i32 {
    if k == "center"@ {
        (((container as int - element as int) % 0x1_0000_0000) / 2) as i32
    } else {
        match keyword_percent(k) {
            Some(p) => clamp_i32(percent_of(container as nat, p as nat)),
            None => 0,
        }
    }
}

/// The size a lower-cased size keyword gives against `reference`: all of
/// it, a percentage, or all of it for anything else.
pub open spec fn size_keyword(k: Seq<char>, reference: u32) -> u32 {
    if k == "full"@ {
        reference
    } else {
        match keyword_percent(k) {
            Some(p) => clamp_u32(percent_of(reference as nat, p as nat)),
            None => reference,
        }
    }
}

/// Reads the percentage of a keyword.
fn percent_exec(k: &str) -> (r: Option<u64>)
    ensures
        r == keyword_percent(k@),
{
    let cs = chars_of(k);
    let pct = chars_of("%");
    proof {
        reveal_strlit("%");
    }
    if cs.len() == 0 || !crate::text::occurs_at_exec(&cs, &pct, cs.len() - 1) {
        return None;
    }
    assert(cs@.subrange(0, cs@.len() - 1) =~= k@.drop_last());
    parse_u64(&cs, 0, cs.len() - 1)
}

fn scaled(reference: u32, p: u64) -> (r: u128)
    ensures
        r == percent_of(reference as nat, p as nat),
{
    assert(reference as nat * p as nat <= 0xffff_ffff_ffff_ffff_ffff_ffff_ffff_ffff) by (nonlinear_arith)
        requires
            reference <= u32::MAX,
            p <= u64::MAX,
    ;
    let prod: u128 = reference as u128 * p as u128;
    prod / 100
}

/// Resolves a lower-cased position keyword.
pub fn resolve_position_keyword(lowered: &str, container_size: u32, element_size: u32) -> (r: i32)
    ensures
        r == position_keyword(lowered@, container_size, element_size),
{
    if same_text(lowered, "center") {
        let diff = container_size.wrapping_sub(element_size);
        assert(diff as int == (container_size as int - element_size as int) % 0x1_0000_0000);
        (diff / 2) as i32
    } else {
        match percent_exec(lowered) {
            Some(p) => {
                let v = scaled(container_size, p);
                if v > i32::MAX as u128 {
                    i32::MAX
                } else {
                    v as i32
                }
            },
            None => 0,
        }
    }
}

/// Resolves a lower-cased size keyword.
pub fn resolve_size_keyword(lowered: &str, reference_size: u32) -> (r: u32)
    ensures
        r == size_keyword(lowered@, reference_size),
{
    if same_text(lowered, "full") {
        reference_size
    } else {
        match percent_exec(lowered) {
            Some(p) => {
                let v = scaled(reference_size, p);
                if v > u32::MAX as u128 {
                    u32::MAX
                } else {
                    v as u32
                }
            },
            None => reference_size,
        }
    }
}

impl PositionValue {
    /// The pixel position in a container of `container_size` for an element
    /// of `element_size`; keywords are compared without regard to case.
    pub fn resolve(&self, container_size: u32, element_size: u32) -> (r: i32)
        ensures
            r == match self {
                PositionValue::Pixels(px) => *px,
                PositionValue::Keyword(kw) => position_keyword(
                    lower_of(kw@),
                    container_size,
                    element_size,
                ),
            },
    {
        match self {
            PositionValue::Pixels(px) => *px,
            PositionValue::Keyword(kw) => {
                let lowered = lowercase(kw.as_str());
                resolve_position_keyword(lowered.as_str(), container_size, element_size)
            },
        }
    }
}

impl SizeValue {
    /// The pixel size against `reference_size`; keywords are compared without
    /// regard to case.
    pub fn resolve(&self, reference_size: u32) -> (r: u32)
        ensures
            r == match self {
                SizeValue::Pixels(px) => *px,
                SizeValue::Keyword(kw) => size_keyword(lower_of(kw@), reference_size),
            },
    {
        match self {
            SizeValue::Pixels(px) => *px,
            SizeValue::Keyword(kw) => {
                let lowered = lowercase(kw.as_str());
                resolve_size_keyword(lowered.as_str(), reference_size)
            },
        }
    }
}

impl Default for PositionValue {
    fn default() -> (r: Self)
        ensures
            r == PositionValue::Pixels(0),
    {
        PositionValue::Pixels(0)
    }
}

impl Default for SizeValue {
    fn default() -> (r: Self)
        ensures
            r matches SizeValue::Keyword(k) && k@ == "full"@,
    {
        SizeValue::Keyword(String::from_str("full"))
    }
}

/// Where an element sits and how large it is.
#[derive(Debug, Clone)]
pub struct Position {
    pub x: PositionValue,
    pub y: PositionValue,
    pub width: SizeValue,
    pub height: SizeValue,
}

impl Default for Position {
    fn default() -> (r: Self)
        ensures
            r.x == PositionValue::Pixels(0),
            r.y == PositionValue::Pixels(0),
            r.width matches SizeValue::Keyword(k) && k@ == "full"@,
            r.height matches SizeValue::Keyword(k) && k@ == "full"@,
    {
        Position {
            x: PositionValue::default(),
            y: PositionValue::default(),
            width: SizeValue::default(),
            height: SizeValue::default(),
        }
    }
}

/// Crop bounds of a clip; each is optional.
#[derive(Debug, Clone, Copy, PartialEq, Eq, Structural)]
pub struct Crop {
    pub x_from: Option<i32>,
    pub x_to: Option<i32>,
    pub y_from: Option<i32>,
    pub y_to: Option<i32>,
}

impl Crop {
    /// Whether any bound is given.
    pub fn is_specified(&self) -> (r: bool)
        ensures
            r == (self.x_from is Some || self.x_to is Some || self.y_from is Some
                || self.y_to is Some),
    {
        self.x_from.is_some() || self.x_to.is_some() || self.y_from.is_some() || self.y_to.is_some()
    }
}

impl Default for Crop {
    fn default() -> (r: Self)
        ensures
            r.x_from is None && r.x_to is None && r.y_from is None && r.y_to is None,
    {
        Crop { x_from: None, x_to: None, y_from: None, y_to: None }
    }
}

/// A shader applied over a layer.
#[derive(Debug, Clone, Copy, PartialEq, Eq, Structural)]
pub enum ShaderEffect {
    Blur { intensity: u32 },
}

/// Blur strength used when a template gives none.
pub fn default_blur_intensity() -> (r: u32)
    ensures
        r == 20,
{
    20
}

/// How a video is scaled into its box.
#[derive(Debug, Clone, Copy, PartialEq, Eq, Structural)]
pub enum Fit {
    /// Fill the box, cropping the excess, keeping the aspect ratio.
    Cover,
    /// Fit inside the box, padding the rest, keeping the aspect ratio.
    Contain,
    /// Fill the box, ignoring the aspect ratio.
    Stretch,
}

/// The fit used when a template gives none.
pub fn default_fit() -> (r: Fit)
    ensures
        r == Fit::Stretch,
{
    Fit::Stretch
}

/// Severity of an export log line.
#[derive(Debug, Clone, Copy, PartialEq, Eq, Structural)]
pub enum ExportLogLevel {
    Info,
    Success,
    Warning,
    Error,
}

} // verus!
