use starforge::text::{is_whitespace, trim_str};

#[test]
fn whitespace_agrees_with_std_on_every_char() {
    for code in 0u32..=0x10FFFF {
        if let Some(c) = char::from_u32(code) {
            assert_eq!(is_whitespace(c), c.is_whitespace(), "U+{:04X}", code);
        }
    }
}

#[test]
fn trim_agrees_with_std() {
    let samples = [
        "",
        "   ",
        "abc",
        "  abc  ",
        "\t\n a b \r\n",
        "\u{3000}全角\u{3000}",
        "\u{85}x\u{a0}",
        "\u{200b}zero width\u{200b}",
        " 👨‍👩‍👧 ",
    ];
    for s in samples {
        assert_eq!(trim_str(s), s.trim(), "{:?}", s);
    }
}

