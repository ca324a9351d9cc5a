//! What the map service says of a map: its number, its size, and the number of
//! its screenshot, which stands in the address of an image on the map's page.

use vstd::prelude::*;
use regex::Regex;
use crate::error::DecodeError;
use crate::number::{parse_unsigned, parse_unsigned_number};
use crate::strings::{text_of, to_chars};

verus! {

/// A map as the map service describes it.
#[derive(Clone, Copy, Debug, PartialEq, Eq, Structural)]
pub struct MapInfo {
    pub id: u32,
    pub width: u16,
    pub height: u16,
}

/// The description of a map with number `id`, whose width and height the service
/// gives as text. The number is cut to 32 bits.
pub open spec fn map_info_of(id: u64, width: Seq<char>, height: Seq<char>) -> Option<MapInfo> {
    match (parse_unsigned(height, 10, u16::MAX as int), parse_unsigned(width, 10, u16::MAX as int)) {
        (Some(h), Some(w)) => Some(
            MapInfo { id: (id % 0x1_0000_0000) as u32, width: w as u16, height: h as u16 },
        ),
        _ => None,
    }
}

/// Puts together the description of a map from the fields of the service's answer.
/// Width and height must be numbers in base ten of at most 16 bits.
pub fn map_info_from_fields(id: u64, width: &str, height: &str) -> (result: Result<
    MapInfo,
    DecodeError,
>)
    ensures
        match map_info_of(id, width@, height@) {
            Some(info) => result == Ok::<MapInfo, DecodeError>(info),
            None => result == Err::<MapInfo, DecodeError>(DecodeError::InvalidNumber),
        },
{
    let height_chars = to_chars(height);
    let h = match parse_unsigned_number(height_chars.as_slice(), 10, 0xFFFF) {
        Some(h) => h,
        None => {
            return Err(DecodeError::InvalidNumber);
        },
    };
    let width_chars = to_chars(width);
    let w = match parse_unsigned_number(width_chars.as_slice(), 10, 0xFFFF) {
        Some(w) => w,
        None => {
            return Err(DecodeError::InvalidNumber);
        },
    };
    Ok(MapInfo { id: (id % 0x1_0000_0000) as u32, width: w as u16, height: h as u16 })
}

/// What the first group of the regular expression `pattern` holds in its first
/// match in `text`, as the `regex` crate finds it; `None` when there is no such
/// expression, no match or no such group.
pub uninterp spec fn first_group(pattern: Seq<char>, text: Seq<char>) -> Option<Seq<char>>;

/// `regex::Regex::captures` on the expression that `Regex::new` builds from
/// `pattern`: the text of group 1 of the leftmost match in `text`.
#[verifier::external_body]
fn capture_first_group(pattern: &str, text: &str) -> (group: Option<String>)
    ensures
        text_of(group) == first_group(pattern@, text@),
{
    match Regex::new(pattern) {
        Ok(expression) => match expression.captures(text) {
            Some(captures) => match captures.get(1) {
                Some(group) => Some(String::from(group.as_str())),
                None => None,
            },
            None => None,
        },
        Err(_) => None,
    }
}

/// The screenshot number that a captured run of digits stands for. No capture
/// means no screenshot; digits that write no number of 32 bits are refused.
pub open spec fn screenshot_id_of(group: Option<Seq<char>>) -> Result<Option<u32>, DecodeError> {
    match group {
        None => Ok(None),
        Some(digits) => match parse_unsigned(digits, 10, u32::MAX as int) {
            Some(id) => Ok(Some(id as u32)),
            None => Err(DecodeError::InvalidNumber),
        },
    }
}

/// Reads the screenshot number from the digits captured on a map's page.
pub fn screenshot_id_from_group(group: Option<String>) -> (result: Result<
    Option<u32>,
    DecodeError,
>)
    ensures
        result == screenshot_id_of(text_of(group)),
{
    match group {
        None => Ok(None),
        Some(digits) => {
            let chars = to_chars(digits.as_str());
            match parse_unsigned_number(chars.as_slice(), 10, 0xFFFF_FFFF) {
                Some(id) => Ok(Some(id)),
                None => Err(DecodeError::InvalidNumber),
            }
        },
    }
}

/// The expression that finds the address of a screenshot on a map's page.
pub open spec fn screenshot_pattern() -> Seq<char> {
    "/screenshots/(\\d+)/"@
}

/// Finds the number of the first screenshot that the page of a map links to.
pub fn find_screenshot_id_in(page: &str) -> (result: Result<Option<u32>, DecodeError>)
    ensures
        result == screenshot_id_of(first_group(screenshot_pattern(), page@)),
{
    screenshot_id_from_group(capture_first_group("/screenshots/(\\d+)/", page))
}

} // verus!
