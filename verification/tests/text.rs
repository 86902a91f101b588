use nexus::bytes::{
    copy_range, get_text, get_u16, get_u32, get_u64, put_text, put_u16, put_u32, put_u64, ByteReader,
    Utf8Flaw,
};
use nexus::json::{parse_json, Json};
use nexus::names::NameMap;
use nexus::order::{sort_texts, sorted_places, text_not_after};
use nexus::text::{
    bytes_eq, contains_char, contains_str, decimal_string, is_whitespace, join_words, left_align,
    replace_text, str_eq,
};

#[test]
fn whitespace_is_that_of_unicode() {
    for code in 0..=0x10_ffffu32 {
        if let Some(c) = char::from_u32(code) {
            assert_eq!(is_whitespace(c), c.is_whitespace(), "{:x}", code);
        }
    }
}

#[test]
fn numbers_in_words() {
    for n in [0u64, 1, 9, 10, 99, 100, 12345, u64::MAX] {
        assert_eq!(decimal_string(n), n.to_string());
    }
}

#[test]
fn texts_are_searched_and_replaced() {
    for (text, pattern, with) in [
        ("hello world", "o", "0"),
        ("aaaa", "aa", "b"),
        ("größe", "ö", "oe"),
        ("none", "x", "y"),
        ("▁a▁b", "▁", " "),
    ] {
        assert_eq!(replace_text(text, pattern, with), text.replace(pattern, with));
        assert_eq!(contains_str(text, pattern), text.contains(pattern));
    }
    assert!(contains_str("abc", ""));
    assert!(contains_char("größe", 'ß'));
    assert!(!contains_char("größe", 's'));
    assert!(str_eq("größe", "größe"));
    assert!(!str_eq("a", "ab"));
    assert!(bytes_eq(&[1, 2], &[1, 2]));
    assert!(!bytes_eq(&[1, 2], &[1, 3]));
}

#[test]
fn words_are_joined_by_one_space() {
    for text in ["", "  a  b\t\nc ", "x", "\u{3000}wide\u{a0}space"] {
        let expected: Vec<&str> = text.split_whitespace().collect();
        assert_eq!(join_words(text), expected.join(" "));
    }
}

#[test]
fn texts_are_padded_on_the_right() {
    for text in ["", "abc", "größe", "longer than eight"] {
        assert_eq!(left_align(text, 8), format!("{:<8}", text));
    }
}

#[test]
fn texts_are_sorted_as_std_sorts_them() {
    let words = ["b", "a", "", "ba", "ä", "z", "Z", "日", "a", "ab"];
    let mut expected: Vec<String> = words.iter().map(|s| s.to_string()).collect();
    let given = expected.clone();
    expected.sort();
    assert_eq!(sort_texts(given.clone()), expected);
    let places = sorted_places(&given);
    let by_place: Vec<String> = places.iter().map(|i| given[*i].clone()).collect();
    assert_eq!(by_place, expected);
    for a in words {
        for b in words {
            assert_eq!(text_not_after(a, b), a <= b);
        }
    }
}

#[test]
fn names_are_kept_in_order() {
    let mut map: NameMap<u32> = NameMap::new();
    for i in 0..200u32 {
        map.insert(format!("name {}", i % 100), i);
    }
    assert_eq!(map.len(), 100);
    assert_eq!(map.get("name 7"), Some(&107));
    assert_eq!(map.get("name 700"), None);
    assert_eq!(map.name_at(7), "name 7");
    assert_eq!(map.value_at(7), &107);
    assert_eq!(map.find("name 99"), Some(99));
    assert_eq!(map.remove("name 7"), Some(107));
    assert_eq!(map.remove("name 7"), None);
    assert!(!map.contains_key("name 7"));
    assert_eq!(map.len(), 99);
    for i in 0..map.len() {
        let name = map.name_at(i).clone();
        assert_eq!(map.find(&name), Some(i));
    }
    let copy = map.clone();
    assert_eq!(copy.get("name 8"), Some(&108));
}

#[test]
fn numbers_are_little_endian() {
    let mut out = Vec::new();
    put_u16(&mut out, 0x1234);
    put_u32(&mut out, 0xdead_beef);
    put_u64(&mut out, 0x0102_0304_0506_0708);
    put_text(&mut out, "hé");
    assert_eq!(&out[..2], &0x1234u16.to_le_bytes());
    assert_eq!(get_u16(&out, 0), 0x1234);
    assert_eq!(get_u32(&out, 2), 0xdead_beef);
    assert_eq!(get_u64(&out, 6), 0x0102_0304_0506_0708);
    assert_eq!(get_u64(&out, 14), 3);
    assert_eq!(get_text(&out, 22, 25), Ok("hé".to_string()));
    let flaw = Utf8Flaw { valid_up_to: 1, error_len: None };
    assert_eq!(get_text(&out, 22, 24), Err(flaw));
    assert_eq!(copy_range(&out, 0, 2), vec![0x34, 0x12]);
}

#[test]
fn a_reader_takes_what_is_there() {
    let mut reader = ByteReader::new(vec![1, 2, 3, 4, 5]);
    assert_eq!(reader.take(2).unwrap(), vec![1, 2]);
    assert!(reader.take(4).is_err());
    let mut reader = ByteReader::new(vec![0; 16]);
    assert_eq!(reader.take_items(2, 4).unwrap().len(), 8);
    assert!(reader.take_items(u64::MAX, 8).is_err());
}

#[test]
fn json_is_read_as_serde_reads_it() {
    let text = "{\"a\":[1,-2,2.5,null,true],\"b\":\"x\\u00e9\",\"n\":18446744073709551615,\"t\":false}";
    let json = parse_json(text.as_bytes()).unwrap();
    assert_eq!(json.str_of("b"), Some("xé"));
    assert_eq!(json.u64_of("n"), Some(u64::MAX));
    assert_eq!(json.i64_of("n"), None);
    let list = json.list_of("a").unwrap();
    assert_eq!(list.len(), 5);
    assert_eq!(list[0].as_u64(), Some(1));
    assert_eq!(list[0].as_i64(), Some(1));
    assert_eq!(list[1].as_u64(), None);
    assert_eq!(list[1].as_i64(), Some(-2));
    assert_eq!(list[2].as_u64(), None);
    assert_eq!(list[2].as_i64(), None);
    assert!(matches!(list[3], Json::Null));
    assert_eq!(list[4].as_bool(), Some(true));
    assert!(!json.is_set("t"));
    assert!(json.get("missing").is_none());
    assert_eq!(json.as_entries().unwrap().len(), 4);
    let value: serde_json::Value = serde_json::from_str(text).unwrap();
    let names: Vec<&String> = value.as_object().unwrap().keys().collect();
    let read: Vec<&String> = json.as_entries().unwrap().iter().map(|e| &e.0).collect();
    assert_eq!(names, read);
    assert!(parse_json(b"{\"a\":}").is_none());
    assert!(parse_json(&[0x22, 0xff, 0x22]).is_none());
    assert!(parse_json(b"[1] 2").is_none());
}
