use jj_agentic_aspect::codec;
use jj_agentic_aspect::json::{Json, JsonObject};
use jj_agentic_aspect::paths;
use jj_agentic_aspect::payload::{clip, shrink};
use jj_agentic_aspect::text;
use jj_agentic_aspect::uri::encode_uri_component;
use serde_json::Value;

fn parsed(s: &str) -> Json {
    codec::parse(s).expect("JSON")
}

#[test]
fn json_text_reads_back() {
    let s = r#"{"a":[1,-2,3.5,true,null,"x\"\\\n\u0001…😀"],"b":{"c":{}},"d":18446744073709551615}"#;
    let v = parsed(s);
    assert_eq!(codec::to_text(&v), s);
    assert_eq!(codec::to_text(&parsed(&codec::to_text(&v))), s);
}

#[test]
fn json_conversions_agree_with_serde_json() {
    let s = r#"{"z":1,"a":{"n":null,"f":-0.5,"b":[false,[],{}]},"m":"é"}"#;
    let value: Value = serde_json::from_str(s).unwrap();
    let json = codec::from_value(value.clone());
    assert_eq!(codec::to_value(&json), value);
    assert_eq!(codec::to_text(&json), serde_json::to_string(&value).unwrap());
}

#[test]
fn json_errors_are_those_of_serde_json() {
    for s in ["", "{", "[1,]", "nul", "{\"a\" 1}"] {
        let expected = serde_json::from_str::<Value>(s).unwrap_err().to_string();
        match codec::parse(s) {
            Err(e) => assert_eq!(e, expected),
            Ok(_) => panic!("{s} is no JSON"),
        }
    }
}

#[test]
fn json_of_127_levels_reads_back_and_of_128_does_not() {
    let deep = |n: usize| format!("{}{}", "[".repeat(n), "]".repeat(n));
    assert_eq!(codec::to_text(&parsed(&deep(127))), deep(127));
    assert!(codec::parse(&deep(128)).is_err());
}

#[test]
fn json_integers_read_back_and_floats_stay_numbers() {
    for s in ["-1", "-9223372036854775808", "0", "18446744073709551615", "[-5,{\"a\":-7}]"] {
        assert_eq!(codec::to_text(&parsed(s)), s);
        assert!(codec::is_plain(&parsed(s), 127, true));
    }
    for s in ["0.1", "1e300", "-2.5", "1.7976931348623157e308", "5e-324"] {
        let v = parsed(s);
        assert!(!codec::is_plain(&v, 127, true) && codec::is_plain(&v, 127, false));
        assert!(codec::parse(&codec::to_text(&v)).is_ok());
    }
    let nested = parsed("[[[]]]");
    assert!(codec::is_plain(&nested, 3, true) && !codec::is_plain(&nested, 2, false));
    assert!(!codec::is_plain(&parsed("{}"), 0, false));
    assert!(!codec::to_text(&parsed("\"a\\nb\"")).contains('\n'));
}

#[test]
fn json_numbers_are_unsigned_where_they_can_be() {
    let v = parsed(r#"{"u":5,"i":-5,"f":5.0,"big":18446744073709551615,"s":"5"}"#);
    assert_eq!(v.u64_at("u"), Some(5));
    assert_eq!(v.u64_at("i"), None);
    assert_eq!(v.u64_at("f"), None);
    assert_eq!(v.u64_at("big"), Some(u64::MAX));
    assert_eq!(v.u64_at("s"), None);
    assert_eq!(v.u64_at("none"), None);
    assert_eq!(Json::from_u64(7).as_u64(), Some(7));
    assert_eq!(codec::to_text(&Json::from_u64(7)), "7");
}

#[test]
fn json_objects_keep_their_keys_in_order() {
    let mut object = JsonObject::new();
    for key in ["b", "a", "é", "aa", "", "b"] {
        let value = Json::from_str(&format!("<{key}>"));
        object.insert(key.to_string(), value);
    }
    object.insert("a".to_string(), Json::Null);
    assert_eq!(object.len(), 5);
    assert_eq!(object.key_list(), ",a,aa,b,é");
    assert!(matches!(object.get("a"), Some(Json::Null)));
    assert_eq!(object.get("aa").and_then(|v| v.as_str()), Some("<aa>"));
    assert!(object.get("c").is_none());
    assert_eq!(codec::to_text(&Json::Object(object)), r#"{"":"<>","a":null,"aa":"<aa>","b":"<b>","é":"<é>"}"#);
}

#[test]
fn json_access_to_missing_values() {
    let v = parsed(r#"{"a":"x","b":1}"#);
    assert_eq!(v.str_at("a"), Some("x"));
    assert_eq!(v.str_at("b"), None);
    assert!(matches!(v.at("c"), Json::Null));
    assert!(parsed("[1]").get("a").is_none());
    assert_eq!(codec::to_text(&v.duplicate()), r#"{"a":"x","b":1}"#);
}

#[test]
fn text_lengths_are_those_of_std() {
    for s in ["", "abc", "é…", "😀x", "\u{10FFFF}\u{FFFF}"] {
        assert_eq!(text::len16(s), s.encode_utf16().count());
        assert_eq!(text::byte_len(s), s.len());
    }
}

#[test]
fn text_whitespace_is_that_of_std() {
    for u in 0..=0x10FFFFu32 {
        if let Some(c) = char::from_u32(u) {
            assert_eq!(text::space(c), c.is_whitespace(), "{u:x}");
        }
    }
}

#[test]
fn text_functions_agree_with_std() {
    let samples = ["", " ", "a", " a b ", "\t\u{3000}x\u{2003}y\n", "--a=b=c", "=", "aaa", "abab", "é", "\u{2028}z"];
    for s in samples {
        assert_eq!(text::trim(s), s.trim());
        assert_eq!(text::collapse(s), s.split_whitespace().collect::<Vec<_>>().join(" "));
        let split = s.split_once('=').map(|(a, b)| (a.to_string(), b.to_string()));
        assert_eq!(text::split_once(s, '='), split);
        for t in samples {
            assert_eq!(text::same(s, t), s == t);
            assert_eq!(text::before(s, t), s < t);
            assert_eq!(text::starts_with(s, t), s.starts_with(t));
            assert_eq!(text::ends_with(s, t), s.ends_with(t));
            assert_eq!(text::contains(s, t), s.contains(t));
            if !t.is_empty() {
                assert_eq!(text::replace(s, t, "<>"), s.replace(t, "<>"));
            }
        }
    }
    assert_eq!(text::join_strs(&["a", "", "b"], "|"), "a||b");
    assert_eq!(text::join_strs(&[], "|"), "");
}

#[test]
fn text_order_is_that_of_bytes() {
    let mut words = vec!["b", "a", "é", "z", "\u{FFFF}", "😀", "aa", ""];
    let mut by_library = words.clone();
    words.sort();
    by_library.sort_by(|a, b| {
        if text::before(a, b) {
            std::cmp::Ordering::Less
        } else if text::before(b, a) {
            std::cmp::Ordering::Greater
        } else {
            std::cmp::Ordering::Equal
        }
    });
    assert_eq!(by_library, words);
}

#[test]
fn numbers_are_written_and_read_like_std() {
    for n in [0u64, 7, 10, 99, 100, 1_400_000, u64::MAX] {
        assert_eq!(text::render(n), n.to_string());
    }
    for s in ["", "0", "007", "+5", "+", "-0", "-1", "4294967295", "4294967296", "99999999999999999999", "1 ", "1a", "٣", "++1"] {
        assert_eq!(text::parse_u32(s), s.parse::<u32>().ok(), "{s}");
    }
}

#[test]
fn paths_join_like_std() {
    for base in ["", "/", "a", "a/", "/a/b", "/a//"] {
        assert_eq!(paths::join(base, "x"), std::path::Path::new(base).join("x").to_string_lossy());
    }
}

#[test]
fn file_names_are_those_of_std() {
    for path in [
        "", "/", "//", ".", "..", "a", "/a", "a/b", "a/b/", "a/b//", "a/.", "a/./", "a/..", "a/../", "./a", "../a", "a/./b/.",
        ".a", "..a", "/a/ ", "a.b/c.d", "/项目/目录", "...",
    ] {
        let expected = std::path::Path::new(path).file_name().map(|s| s.to_string_lossy().into_owned());
        assert_eq!(paths::file_name(path), expected, "{path}");
    }
}

#[test]
fn uri_components_keep_the_unreserved_characters() {
    let kept = "ABCXYZabcxyz0189-_.!~*'()";
    assert_eq!(encode_uri_component(kept), kept);
    assert_eq!(encode_uri_component("a b/c?d=e&f%"), "a%20b%2Fc%3Fd%3De%26f%25");
    assert_eq!(encode_uri_component("项目"), "%E9%A1%B9%E7%9B%AE");
    assert_eq!(encode_uri_component("\n\u{7f}😀"), "%0A%7F%F0%9F%98%80");
    assert_eq!(encode_uri_component(""), "");
}

#[test]
fn clip_marks_what_it_cuts() {
    assert_eq!(clip("abc", 3), "abc");
    assert_eq!(clip("abcd", 3), "abc…[truncated, 4 chars total]");
    assert_eq!(clip("a😀b", 2), "a…[truncated, 4 chars total]");
    assert_eq!(clip("a😀b", 3), "a😀…[truncated, 4 chars total]");
    assert_eq!(clip("abc", 0), "…[truncated, 3 chars total]");
    assert_eq!(clip("", 0), "");
}

#[test]
fn shrink_clips_strings_and_caps_arrays() {
    let v = parsed(r#"{"k":"abcdef","n":1,"l":["xxxxx",2,3,4],"o":{"deep":["abcdef"]},"t":true,"z":null}"#);
    assert_eq!(
        codec::to_text(&shrink(&v, 4, Some(3))),
        r#"{"k":"abcd…[truncated, 6 chars total]","l":["xxxx…[truncated, 5 chars total]",2,3,"…[1 …[truncated, 25 chars total]"],"n":1,"o":{"deep":["abcd…[truncated, 6 chars total]"]},"t":true,"z":null}"#
    );
    assert_eq!(codec::to_text(&shrink(&v, 100, Some(3))), codec::to_text(&parsed(
        r#"{"k":"abcdef","n":1,"l":["xxxxx",2,3,"…[1 more items truncated]"],"o":{"deep":["abcdef"]},"t":true,"z":null}"#
    )));
    assert_eq!(codec::to_text(&shrink(&v, 100, None)), codec::to_text(&v));
}
