use ollama_stream::text::{is_whitespace, str_equal, string_from_chars, trim_bounds};

#[test]
fn white_space_is_what_the_standard_library_says() {
    for code in 0..=0x10ffffu32 {
        if let Some(c) = char::from_u32(code) {
            assert_eq!(is_whitespace(c), c.is_whitespace(), "U+{:04X}", code);
        }
    }
}

#[test]
fn trim_bounds_agree_with_trim() {
    let samples = [
        "",
        " ",
        "\t\r\n",
        "a",
        " a",
        "a ",
        "  a b  ",
        "\u{2003}x\u{2028}",
        "\u{85}\u{1680}mid dle\u{205f}\u{202f}",
        "no-space",
    ];
    for sample in samples {
        let chars: Vec<char> = sample.chars().collect();
        let (start, end) = trim_bounds(&chars);
        assert!(start <= end && end <= chars.len());
        assert_eq!(string_from_chars(&chars, start, end), sample.trim());
    }
}

#[test]
fn trim_bounds_of_blank_text_are_empty() {
    let chars: Vec<char> = "   ".chars().collect();
    let (start, end) = trim_bounds(&chars);
    assert_eq!(start, end);
}

#[test]
fn string_from_chars_copies_the_range() {
    let chars: Vec<char> = "héllo".chars().collect();
    assert_eq!(string_from_chars(&chars, 1, 4), "éll");
    assert_eq!(string_from_chars(&chars, 2, 2), "");
    assert_eq!(string_from_chars(&chars, 0, 5), "héllo");
}

#[test]
fn str_equal_compares_the_characters() {
    assert!(str_equal("", ""));
    assert!(str_equal("done", "done"));
    assert!(str_equal("é", "é"));
    assert!(!str_equal("done", "Done"));
    assert!(!str_equal("done", "don"));
    assert!(!str_equal("", "x"));
}
