use steno::unicode::{byte_len, char_width, chars_of, is_whitespace, string_of};

#[test]
fn char_width_is_the_utf8_length() {
    let samples = [
        '\0', 'a', '\u{7f}', '\u{80}', 'é', '\u{7ff}', '\u{800}', '€', '\u{ffff}', '\u{10000}',
        '😀', '\u{10ffff}',
    ];
    for c in samples {
        assert_eq!(char_width(c), c.len_utf8(), "{:?}", c);
    }
}

#[test]
fn char_width_agrees_with_std_everywhere() {
    for v in 0..=0x10_FFFFu32 {
        if let Some(c) = char::from_u32(v) {
            assert_eq!(char_width(c), c.len_utf8());
        }
    }
}

#[test]
fn is_whitespace_agrees_with_std_everywhere() {
    for v in 0..=0x10_FFFFu32 {
        if let Some(c) = char::from_u32(v) {
            assert_eq!(is_whitespace(c), c.is_whitespace(), "{:?}", c);
        }
    }
}

#[test]
fn chars_and_strings_convert_both_ways() {
    let text = "héllo, wörld €😀";
    let chars = chars_of(text);
    assert_eq!(chars, text.chars().collect::<Vec<char>>());
    assert_eq!(string_of(&chars, 0, chars.len()), text);
    assert_eq!(string_of(&chars, 7, 12), "wörld");
    assert_eq!(string_of(&chars, 3, 3), "");
    assert!(chars_of("").is_empty());
}

#[test]
fn byte_len_counts_utf8_bytes() {
    let chars = chars_of("aé€😀");
    assert_eq!(byte_len(&chars, 0, 4), Some(10));
    assert_eq!(byte_len(&chars, 1, 3), Some(5));
    assert_eq!(byte_len(&chars, 2, 2), Some(0));
}
