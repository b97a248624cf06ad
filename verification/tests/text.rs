use bit_to_byte::text::{
    chars_eq, chars_of, decode_chars, hex_chars, is_control, is_whitespace, push_decimal,
    same_text, split_chars, splitn_chars, starts_with_chars, text_of, trim_chars,
    utf8_len_within,
};

fn pieces(parts: Vec<Vec<char>>) -> Vec<String> {
    parts.iter().map(|part| text_of(part)).collect()
}

#[test]
fn splitting_matches_the_standard_library() {
    for text in ["", "a", " a  b ", "REGISTER alice Alice Smith", "x\ny\n\nz\n"] {
        let chars = chars_of(text);
        let expected: Vec<String> = text.split(' ').map(String::from).collect();
        assert_eq!(pieces(split_chars(&chars, ' ')), expected);
        for n in 1..5 {
            let expected: Vec<String> = text.splitn(n, ' ').map(String::from).collect();
            assert_eq!(pieces(splitn_chars(&chars, n, ' ')), expected);
        }
    }
}

#[test]
fn trimming_matches_the_standard_library() {
    for text in ["", "   ", " a b ", "\u{3000}x\u{85}", "\t\n y \r", "\u{200b}z"] {
        let trimmed = trim_chars(&chars_of(text));
        assert_eq!(text_of(&trimmed), text.trim());
    }
}

#[test]
fn character_classes_match_the_standard_library() {
    for code in 0..0x3100u32 {
        if let Some(character) = char::from_u32(code) {
            assert_eq!(is_control(character), character.is_control(), "{}", code);
            assert_eq!(is_whitespace(character), character.is_whitespace(), "{}", code);
        }
    }
}

#[test]
fn text_comparisons_and_lengths() {
    assert!(same_text("界 a", "界 a"));
    assert!(!same_text("界", "界a"));
    assert!(chars_eq(&['a', 'b'], &['a', 'b']));
    assert!(!chars_eq(&['a'], &['b']));
    assert!(starts_with_chars(&chars_of("bit-to-byte/1\nx"), &chars_of("bit-to-byte/1\n")));
    assert!(!starts_with_chars(&chars_of("bit"), &chars_of("bit-to")));
    assert!(utf8_len_within(&chars_of("界界"), 6));
    assert!(!utf8_len_within(&chars_of("界界"), 5));
    assert!(utf8_len_within(&chars_of("😀"), 4));
    assert!(!utf8_len_within(&chars_of("😀"), 3));
    assert_eq!(decode_chars("hé".as_bytes()), Some(vec!['h', 'é']));
    assert_eq!(decode_chars(&[0xc3]), None);
    assert_eq!(text_of(&hex_chars(&[0, 9, 10, 255])), "00090aff");
    let mut digits = Vec::new();
    push_decimal(&mut digits, 1230);
    assert_eq!(text_of(&digits), "1230");
}
