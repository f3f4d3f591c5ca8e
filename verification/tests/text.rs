use school_cats::text::{chars_of, joined, parse_u32, same_text, u32_to_decimal};

#[test]
fn decimal_numerals() {
    assert_eq!(u32_to_decimal(0), "0");
    assert_eq!(u32_to_decimal(7), "7");
    assert_eq!(u32_to_decimal(3030), "3030");
    assert_eq!(u32_to_decimal(u32::MAX), "4294967295");
}

#[test]
fn parse_like_std() {
    for s in ["", "+", "-", "+5", "-5", "5", "007", " 1", "1 ", "12a", "4294967295", "4294967296", "99999999999999999999", "+0", "١"] {
        assert_eq!(parse_u32(s), s.parse::<u32>().ok(), "{:?}", s);
    }
}

#[test]
fn decimal_reads_back() {
    for n in [0u32, 1, 9, 10, 99, 100, 65535, 123456789, u32::MAX] {
        assert_eq!(parse_u32(&u32_to_decimal(n)), Some(n));
    }
}

#[test]
fn text_helpers() {
    assert!(same_text("猫", "猫"));
    assert!(!same_text("猫", "猫猫"));
    assert!(!same_text("ab", "ac"));
    assert_eq!(joined("a", "猫"), "a猫");
    assert_eq!(chars_of("a猫b"), vec!['a', '猫', 'b']);
}
