use replay_decoder::lookup::{
    find_screenshot_id_in, map_info_from_fields, screenshot_id_from_group, MapInfo,
};
use replay_decoder::number::parse_unsigned_number;
use replay_decoder::DecodeError;

fn chars(s: &str) -> Vec<char> {
    s.chars().collect()
}

#[test]
fn screenshot_number_is_found_on_the_page() {
    let page = "<html><img src=\"/screenshots/4711/\"><img src=\"/screenshots/12/\"></html>";
    assert_eq!(find_screenshot_id_in(page), Ok(Some(4711)));
}

#[test]
fn page_without_screenshot_gives_none() {
    assert_eq!(find_screenshot_id_in("<html></html>"), Ok(None));
    assert_eq!(find_screenshot_id_in(""), Ok(None));
    assert_eq!(find_screenshot_id_in("/screenshots//"), Ok(None));
    assert_eq!(find_screenshot_id_in("/screenshots/12"), Ok(None));
    assert_eq!(find_screenshot_id_in("/screenshots/x12/"), Ok(None));
}

#[test]
fn first_screenshot_wins() {
    assert_eq!(find_screenshot_id_in("/screenshots/x/ /screenshots/7/ /screenshots/8/"), Ok(Some(7)));
    assert_eq!(find_screenshot_id_in("/screenshots/0009/"), Ok(Some(9)));
}

#[test]
fn screenshot_number_that_does_not_fit_is_refused() {
    assert_eq!(find_screenshot_id_in("/screenshots/4294967295/"), Ok(Some(u32::MAX)));
    assert_eq!(find_screenshot_id_in("/screenshots/4294967296/"), Err(DecodeError::InvalidNumber));
    assert_eq!(
        find_screenshot_id_in("/screenshots/\u{0661}\u{0662}/"),
        Err(DecodeError::InvalidNumber)
    );
}

#[test]
fn screenshot_number_from_captured_digits() {
    assert_eq!(screenshot_id_from_group(None), Ok(None));
    assert_eq!(screenshot_id_from_group(Some(String::from("42"))), Ok(Some(42)));
    assert_eq!(screenshot_id_from_group(Some(String::from("+42"))), Ok(Some(42)));
    assert_eq!(screenshot_id_from_group(Some(String::from(""))), Err(DecodeError::InvalidNumber));
    assert_eq!(screenshot_id_from_group(Some(String::from("-1"))), Err(DecodeError::InvalidNumber));
    assert_eq!(screenshot_id_from_group(Some(String::from("4x"))), Err(DecodeError::InvalidNumber));
}

#[test]
fn map_description_from_the_fields_of_the_answer() {
    assert_eq!(
        map_info_from_fields(1234, "128", "64"),
        Ok(MapInfo { id: 1234, width: 128, height: 64 })
    );
    assert_eq!(
        map_info_from_fields(0x1_0000_0005, "65535", "0"),
        Ok(MapInfo { id: 5, width: 65535, height: 0 })
    );
}

#[test]
fn map_size_that_is_no_number_is_refused() {
    assert_eq!(map_info_from_fields(1, "65536", "64"), Err(DecodeError::InvalidNumber));
    assert_eq!(map_info_from_fields(1, "128", "-64"), Err(DecodeError::InvalidNumber));
    assert_eq!(map_info_from_fields(1, "", "64"), Err(DecodeError::InvalidNumber));
    assert_eq!(map_info_from_fields(1, "128", "6 4"), Err(DecodeError::InvalidNumber));
}

#[test]
fn unsigned_numbers_parse_as_std_parses_them() {
    let samples = [
        "0", "7", "-7", "+7", "007", "-0", "65535", "65536", "4294967295", "4294967296", "", "+",
        "-", "++1", " 1", "1 ", "1a", "ff", "99999999999999999999999", "+0",
    ];
    for s in samples.iter() {
        assert_eq!(parse_unsigned_number(&chars(s), 10, u32::MAX), s.parse::<u32>().ok());
        assert_eq!(
            parse_unsigned_number(&chars(s), 10, 0xFFFF),
            s.parse::<u16>().ok().map(|v| v as u32)
        );
        assert_eq!(
            parse_unsigned_number(&chars(s), 16, u32::MAX),
            u32::from_str_radix(s, 16).ok()
        );
    }
}
