use replay_decoder::flags_are_short;
use replay_decoder::strings::{bytes_equal, same_text};
use replay_decoder::version::bytes_greater;

#[test]
fn last_release_with_one_byte_has_narrow_flags() {
    assert!(!flags_are_short("release-20200503"));
}

#[test]
fn later_releases_have_wide_flags() {
    assert!(flags_are_short("release-20200504"));
    assert!(flags_are_short("release-20210321"));
    assert!(flags_are_short("release-202005030"));
    assert!(flags_are_short("release-20200503 "));
    assert!(flags_are_short("s"));
    assert!(flags_are_short("\u{00FC}"));
}

#[test]
fn earlier_releases_have_narrow_flags() {
    assert!(!flags_are_short("release-20200502"));
    assert!(!flags_are_short("release-20190314"));
    assert!(!flags_are_short("release-2020050"));
    assert!(!flags_are_short("playtest-20990101"));
    assert!(!flags_are_short(""));
    assert!(!flags_are_short("Release-20990101"));
}

#[test]
fn development_build_has_wide_flags() {
    assert!(flags_are_short("{{DEV_VERSION}}"));
}

#[test]
fn policy_agrees_with_string_comparison() {
    let samples = [
        "", "a", "release", "release-", "release-20200503", "release-20200503x",
        "release-20200504", "release-2020050", "release-3", "zzz", "{{DEV_VERSION}}",
        "{{DEV_VERSION}", "{", "playtest-20200606", "\u{4e16}", "release-\u{00e9}",
    ];
    for s in samples.iter() {
        let expected = *s == "{{DEV_VERSION}}" || *s > "release-20200503";
        assert_eq!(flags_are_short(s), expected);
    }
}

#[test]
fn bytes_compare_as_in_a_dictionary() {
    let samples: [&[u8]; 8] =
        [b"", b"a", b"ab", b"b", b"aa", b"\xff", b"a\x00", b"release-20200503"];
    for a in samples.iter() {
        for b in samples.iter() {
            assert_eq!(bytes_greater(a, b), a > b);
            assert_eq!(bytes_equal(a, b), a == b);
        }
    }
}

#[test]
fn texts_are_the_same_when_their_characters_are() {
    assert!(same_text("Move", "Move"));
    assert!(same_text("", ""));
    assert!(!same_text("Move", "move"));
    assert!(!same_text("Move", "Mov"));
    assert!(same_text("\u{4e16}\u{754c}", "\u{4e16}\u{754c}"));
}
