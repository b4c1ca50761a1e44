use vstd::prelude::*;
use vstd::string::StringSliceAdditionalSpecFns;

use crate::scan::{decimal_value, is_unsigned_literal, parse_unsigned, unsigned_digits};

verus! {

#[derive(PartialEq, Eq, Debug, Clone, Copy, Structural)]
pub enum RateSpecification {
    TimerBased(u32),
    ThroughputBased(u32),
}

/// Digits, optional spaces, then `hz` or `HZ`, anywhere in the text.
pub const HZ_PATTERN: &'static str = "(\\d+)\\s*(hz|HZ)";

/// What the first match of `pattern` in `text` captures in group `group`; `None` when the
/// pattern does not compile, does not match, or the group takes no part in the match.
pub uninterp spec fn regex_capture_of(pattern: Seq<char>, text: Seq<char>, group: nat) -> Option<
    Seq<char>,
>;

/// Relies on `regex::Regex::new`, `Regex::captures` and `Captures::get`: the text of a group
/// of the leftmost match.
#[verifier::external_body]
fn regex_capture(pattern: &str, text: &str, group: usize) -> (r: Option<String>)
    ensures
        match r {
            Some(g) => regex_capture_of(pattern@, text@, group as nat) == Some(g@),
            None => regex_capture_of(pattern@, text@, group as nat) is None,
        },
{
    let re = regex::Regex::new(pattern).ok()?;
    re.captures(text)?.get(group).map(|m| m.as_str().to_string())
}

/// How many bytes `byte_unit::Byte::from_str` reads in a text such as `1kb` or `100 MB`;
/// `None` where it refuses the text.
pub uninterp spec fn byte_count_of(text: Seq<char>) -> Option<nat>;

/// Relies on `byte_unit::Byte::from_str` and `Byte::get_bytes`: a size with an optional
/// unit, in bytes.
#[verifier::external_body]
fn byte_count(text: &str) -> (r: Option<u128>)
    ensures
        match r {
            Some(b) => byte_count_of(text@) == Some(b as nat),
            None => byte_count_of(text@) is None,
        },
{
    byte_unit::Byte::from_str(text).ok().map(|b| b.get_bytes())
}

/// The rate that a frequency capture or a byte count stands for. A frequency whose digits do
/// not fit a `u32` gives no rate; a byte count is cut to its low 32 bits.
pub open spec fn rate_of(hz_digits: Option<Seq<u8>>, bytes: Option<nat>) -> Option<
    RateSpecification,
> {
    match hz_digits {
        Some(d) => if is_unsigned_literal(d) && decimal_value(unsigned_digits(d)) <= u32::MAX {
            Some(RateSpecification::TimerBased(decimal_value(unsigned_digits(d)) as u32))
        } else {
            None
        },
        None => match bytes {
            Some(b) => Some(RateSpecification::ThroughputBased((b % 0x1_0000_0000) as u32)),
            None => None,
        },
    }
}

/// The rate that a frequency capture (`1` of `1hz`) or, failing one, a byte count stands for.
pub fn rate_from(hz_digits: Option<&str>, bytes: Option<u128>) -> (r: Option<RateSpecification>)
    ensures
        r == rate_of(
            match hz_digits {
                Some(d) => Some(d.spec_bytes()),
                None => None,
            },
            match bytes {
                Some(b) => Some(b as nat),
                None => None,
            },
        ),
{
    match hz_digits {
        Some(d) => match parse_unsigned(d.as_bytes(), u32::MAX as u64) {
            Some(v) => Some(RateSpecification::TimerBased(v as u32)),
            None => None,
        },
        None => match bytes {
            Some(b) => Some(RateSpecification::ThroughputBased((b % 0x1_0000_0000) as u32)),
            None => None,
        },
    }
}

/// Reads a rate: a frequency such as `10 hz`, else a throughput such as `1kb` (bytes per
/// second).
pub fn parse_rate(rate: &str) -> (r: Option<RateSpecification>)
    ensures
        r == rate_of(
            match regex_capture_of(HZ_PATTERN@, rate@, 1) {
                Some(g) => Some(vstd::utf8::encode_utf8(g)),
                None => None,
            },
            byte_count_of(rate@),
        ),
{
    match regex_capture(HZ_PATTERN, rate, 1) {
        Some(d) => rate_from(Some(d.as_str()), None),
        None => rate_from(None, byte_count(rate)),
    }
}

} // verus!
