use research_utility::decimal::{
    i64_text, parse_i64, parse_usize, u64_text, usize_text, IntegerError,
};
use research_utility::hex::{hex_decode, hex_encode, hex_nibble, HexFault};
use research_utility::text::{
    ascii_lowercase, contains_text, is_blank, is_white_space, same_text, split_all, split_once,
    strip_prefix, text_order, trim, CharSet, TextOrder,
};
use research_utility::text_map::{Duplicate, TextMap};

#[test]
fn white_space_is_unicode_white_space() {
    for code in 0..=0x10ffff_u32 {
        if let Some(c) = char::from_u32(code) {
            assert_eq!(is_white_space(c), c.is_whitespace(), "code point {code:x}");
        }
    }
}

#[test]
fn trimming_agrees_with_std() {
    for s in ["", " ", "a", " a ", "\t\u{3000}a b\u{a0}\n", "\"x\"", "\"\"y\"", "'z'", "日本 "] {
        assert_eq!(trim(s, CharSet::WhiteSpace), s.trim());
        assert_eq!(trim(s, CharSet::One('"')), s.trim_matches('"'));
        assert_eq!(trim(s, CharSet::One('\'')), s.trim_matches('\''));
        assert_eq!(is_blank(s), s.trim().is_empty());
    }
}

#[test]
fn splitting_and_searching_agree_with_std() {
    for s in ["", "=", "a=b", "a=b=c", "no", "=x", "x=", "é=ü"] {
        let expected = s.split_once('=').map(|(a, b)| (a.to_string(), b.to_string()));
        assert_eq!(split_once(s, '='), expected);
        let pieces: Vec<String> = s.split('=').map(str::to_string).collect();
        assert_eq!(split_all(s, '='), pieces);
    }
    for (s, n) in [("", ""), ("abc", ""), ("abc", "bc"), ("abc", "cd"), ("a", "abc"), ("ééx", "éx")]
    {
        assert_eq!(contains_text(s, n), s.contains(n));
        assert_eq!(strip_prefix(s, n), s.strip_prefix(n).map(str::to_string));
    }
    assert_eq!(ascii_lowercase("Database IS Locked É"), "database is locked É");
}

#[test]
fn order_agrees_with_std() {
    let words = ["", "a", "B", "ab", "a\u{0}", "é", "z", "\u{ffff}", "\u{10000}", "日本"];
    for a in words {
        for b in words {
            let expected = match a.cmp(b) {
                std::cmp::Ordering::Less => TextOrder::Before,
                std::cmp::Ordering::Equal => TextOrder::Same,
                std::cmp::Ordering::Greater => TextOrder::After,
            };
            assert!(text_order(a, b) == expected);
            assert_eq!(same_text(a, b), a == b);
        }
    }
}

#[test]
fn decimal_text_agrees_with_std() {
    for n in [0_u64, 1, 9, 10, 99, 100, 12345, u64::MAX] {
        assert_eq!(u64_text(n), n.to_string());
        assert_eq!(usize_text(n as usize), (n as usize).to_string());
    }
    for i in [0_i64, 1, -1, 42, -42, i64::MAX, i64::MIN] {
        assert_eq!(i64_text(i), i.to_string());
    }
}

#[test]
fn parsing_agrees_with_std() {
    let inputs = [
        "", "+", "-", "0", "-0", "+0", "007", "42", "+42", "-42", "4x", "x4", " 4", "4 ", "++4",
        "--4", "18446744073709551615", "18446744073709551616", "99999999999999999999999",
        "99999999999999999999999x", "9223372036854775807", "9223372036854775808",
        "-9223372036854775808", "-9223372036854775809", "-99999999999999999999z", "٣",
    ];
    for s in inputs {
        match s.parse::<usize>() {
            Ok(n) => assert_eq!(parse_usize(s), Ok(n)),
            Err(e) => assert_eq!(parse_usize(s).unwrap_err().text(), e.to_string(), "{s}"),
        }
        match s.parse::<i64>() {
            Ok(n) => assert_eq!(parse_i64(s), Ok(n)),
            Err(e) => assert_eq!(parse_i64(s).unwrap_err().text(), e.to_string(), "{s}"),
        }
    }
    assert_eq!(parse_usize("-1"), Err(IntegerError::InvalidDigit));
}

#[test]
fn hexadecimal_text() {
    let all: Vec<u8> = (0..=255_u8).collect();
    let text = hex_encode(&all);
    assert_eq!(&text[..8], "00010203");
    assert_eq!(&text[504..], "fcfdfeff");
    assert_eq!(hex_decode(&text), Ok(all));
    assert_eq!(hex_decode("4a4B"), Ok(vec![0x4a, 0x4b]));
    assert_eq!(hex_decode(""), Ok(vec![]));
    assert_eq!(hex_decode("abc"), Err(HexFault::OddLength(3)));
    assert_eq!(hex_decode("abc").unwrap_err().text(), "hex string has odd length: 3");
    let fault = hex_decode("0g").unwrap_err();
    assert_eq!(fault.text(), "invalid hex character 'g' at index 1");
    assert_eq!(hex_decode("x0"), Err(HexFault::InvalidCharacter { byte: b'x', index: 0 }));
    assert_eq!(hex_decode("00é"), Err(HexFault::InvalidCharacter { byte: 0xc3, index: 2 }));
    assert_eq!(hex_nibble(b'F'), Some(15));
    assert_eq!(hex_nibble(b'G'), None);
}

#[test]
fn text_map_keeps_its_keys_in_order() {
    let mut map: TextMap<String> = TextMap::new();
    for (key, value) in [("b", "1"), ("a", "2"), ("c", "3"), ("B", "4"), ("a", "5")] {
        map.insert(key.to_string(), value.to_string());
    }
    assert_eq!(map.len(), 4);
    let keys: Vec<&str> = (0..map.len()).map(|i| map.key_at(i).as_str()).collect();
    assert_eq!(keys, vec!["B", "a", "b", "c"]);
    assert_eq!(map.get("a").map(String::as_str), Some("5"));
    assert_eq!(map.get("x"), None);
    map.remove("b");
    map.remove("nothing");
    assert!(!map.contains_key("b"));
    let copy = map.duplicate();
    map.remove("a");
    assert_eq!(copy.len(), 3);
    assert_eq!(copy.value_at(1), "5");
}
