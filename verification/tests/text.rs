use onboarding_bot::text::{
    chars_of, i32_text, parse_i32, parse_i64, parse_u32, split_chars, split_words, trim_chars, u32_text,
    white_space,
};

fn v(s: &str) -> Vec<char> {
    s.chars().collect()
}

#[test]
fn white_space_is_chars_is_whitespace() {
    for c in (0u32..0x3100).filter_map(char::from_u32) {
        assert_eq!(white_space(c), c.is_whitespace(), "{:?}", c);
    }
}

#[test]
fn numbers_parse_as_str_parse_does() {
    for s in ["", "+", "-", "0", "+7", "-7", "007", "4294967295", "4294967296", "2147483647", "2147483648", "-2147483648", "-2147483649", " 1", "1 ", "1a", "١"] {
        assert_eq!(parse_u32(&v(s)), s.parse::<u32>().ok(), "u32 {:?}", s);
        assert_eq!(parse_i32(&v(s)), s.parse::<i32>().ok(), "i32 {:?}", s);
        assert_eq!(parse_i64(&v(s)), s.parse::<i64>().ok(), "i64 {:?}", s);
    }
}

#[test]
fn numbers_print_as_to_string_does() {
    for n in [0u32, 9, 10, 13, 4294967295] {
        assert_eq!(u32_text(n), n.to_string());
    }
    for n in [0i32, -1, 2030, i32::MIN, i32::MAX] {
        assert_eq!(i32_text(n), n.to_string());
    }
}

#[test]
fn splitting_and_trimming_as_str_does() {
    for s in ["", "/", "a/b", "a//b/", "1/2/3/4"] {
        let expected: Vec<Vec<char>> = s.split('/').map(v).collect();
        assert_eq!(split_chars(&v(s), '/'), expected);
    }
    for s in ["", "  ", " a  b\tc\u{3000}d ", "x"] {
        let expected: Vec<Vec<char>> = s.split_whitespace().map(v).collect();
        assert_eq!(split_words(&v(s)), expected);
        assert_eq!(trim_chars(&v(s)), v(s.trim()));
    }
    assert_eq!(chars_of("añb"), vec!['a', 'ñ', 'b']);
}
