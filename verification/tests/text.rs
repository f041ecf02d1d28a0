use binlang::text::{
    chars_of, i64_to_string, numeral, owned, parse_i64, remove, replace, split_once, starts_with,
    string_of, usize_to_string,
};

#[test]
fn numerals_are_decimal() {
    for n in [0u64, 1, 9, 10, 11, 99, 100, 101, 12345, u64::MAX] {
        assert_eq!(numeral(n), n.to_string());
    }
    assert_eq!(usize_to_string(usize::MAX), usize::MAX.to_string());
    for i in [0i64, 1, -1, 10, -10, 42, -9007199254740993, i64::MAX, i64::MIN] {
        assert_eq!(i64_to_string(i), i.to_string());
    }
}

#[test]
fn integers_are_parsed_as_the_standard_library_parses_them() {
    for text in [
        "0", "-0", "+0", "7", "+7", "-7", "007", "-007", "123456789", "9223372036854775807",
        "9223372036854775808", "-9223372036854775808", "-9223372036854775809",
        "99999999999999999999999999", "-99999999999999999999999999", "", "+", "-", "--1", "+-1",
        "1-", "1+1", " 1", "1 ", "1_0", "0x10", "1e3", "1.0", "a", "١٢٣", "12a", "a12",
        "00000000000000000000000000000000000000001",
    ] {
        assert_eq!(parse_i64(text), text.parse::<i64>().ok(), "{text:?}");
    }
}

#[test]
fn texts_are_split_at_the_first_mark() {
    for text in ["a=b", "a=b=c", "=", "a=", "=b", "ab", "", "é=ü=", "=="] {
        let expected = text.split_once('=').map(|(a, b)| (a.to_string(), b.to_string()));
        assert_eq!(split_once(text, '='), expected, "{text:?}");
    }
}

#[test]
fn characters_are_replaced_and_removed() {
    for text in ["a_b_c", "___", "", "abc", "é_ü", "_a", "a_"] {
        assert_eq!(replace(text, '_', '-'), text.replace('_', "-"), "{text:?}");
        assert_eq!(remove(text, '_'), text.replace('_', ""), "{text:?}");
    }
    assert_eq!(replace("a b", ' ', '-'), "a-b");
    assert_eq!(replace("abc", 'x', 'y'), "abc");
}

#[test]
fn beginnings_and_copies() {
    assert!(starts_with("-x", '-'));
    assert!(!starts_with("x-", '-'));
    assert!(!starts_with("", '-'));
    assert!(starts_with("éa", 'é'));
    assert_eq!(owned("héllo"), "héllo");
    assert_eq!(chars_of("héllo"), vec!['h', 'é', 'l', 'l', 'o']);
    assert_eq!(chars_of(""), Vec::<char>::new());
    let chars = chars_of("héllo");
    assert_eq!(string_of(&chars, 1, 3), "él");
    assert_eq!(string_of(&chars, 0, 5), "héllo");
    assert_eq!(string_of(&chars, 2, 2), "");
}
