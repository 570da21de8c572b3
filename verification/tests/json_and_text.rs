//! JSON documents, and operations on texts.

use codex_core::conversation::{function_output_text, note_image, text_or_empty};
use codex_core::json::{parse_json, Json};
use codex_core::models::FunctionCallOutputPayload;
use codex_core::text::{
    chars_of, concat3, find_text, is_blank, is_white_space, lower_chars, parse_u32, parse_u64,
    rfind_in, same_text, trims_to,
};

#[test]
fn every_kind_of_document_is_read() {
    assert_eq!(parse_json(" null "), Ok(Json::Null));
    assert_eq!(parse_json("true"), Ok(Json::Bool(true)));
    assert_eq!(
        parse_json("-12"),
        Ok(Json::Number(serde_json::Number::from(-12)))
    );
    assert_eq!(
        parse_json("\"a\\u00e9\\n\""),
        Ok(Json::String("a\u{e9}\n".to_string()))
    );
    assert_eq!(
        parse_json("[[], {}, 1]"),
        Ok(Json::Array(vec![
            Json::Array(vec![]),
            Json::Object(vec![]),
            Json::Number(serde_json::Number::from(1)),
        ]))
    );
    assert_eq!(
        parse_json("{\"a\": {\"b\": [false]}, \"c\": \"d\"}"),
        Ok(Json::Object(vec![
            (
                "a".to_string(),
                Json::Object(vec![(
                    "b".to_string(),
                    Json::Array(vec![Json::Bool(false)])
                )])
            ),
            ("c".to_string(), Json::String("d".to_string())),
        ]))
    );
}

#[test]
fn what_is_no_document_is_complained_about() {
    for bad in ["", "{", "[1,]", "nul", "1 2", "{'a': 1}"] {
        let expected = serde_json::from_str::<serde_json::Value>(bad)
            .unwrap_err()
            .to_string();
        assert_eq!(parse_json(bad), Err(expected));
    }
    assert_eq!(
        parse_json(""),
        Err("EOF while parsing a value at line 1 column 0".to_string())
    );
}

#[test]
fn a_duplicate_is_the_same_document() {
    let text = "{\"a\": [1, 2.5, -3, 18446744073709551615], \"b\": {\"c\": null}, \"d\": true}";
    let json = parse_json(text).unwrap();
    let copy = json.duplicate();
    assert_eq!(copy, json);
    assert_ne!(copy, Json::Null);
    assert_eq!(Json::Null.duplicate(), Json::Null);
}

#[test]
fn white_space_is_that_of_unicode() {
    for n in 0..=0x10ffffu32 {
        if let Some(c) = char::from_u32(n) {
            assert_eq!(is_white_space(c), c.is_whitespace(), "{n:x}");
        }
    }
}

#[test]
fn blank_and_trimmed_texts() {
    for s in ["", " ", "\t\r\n", "\u{2003}\u{85}", " a ", "a", "\u{200b}", " [DONE] "] {
        assert_eq!(is_blank(s), s.trim().is_empty());
        for e in ["", "a", "[DONE]", "\u{200b}"] {
            assert_eq!(trims_to(s, e), s.trim() == e);
        }
    }
}

#[test]
fn search_finds_what_std_finds() {
    let texts = ["", "a", "<think>", "a<think>b<think>", "<<think>", "\u{e9}<thin", "aab", "aaab"];
    let needles = ["", "a", "<think>", "aab", "</"];
    for s in texts {
        let chars = chars_of(s);
        assert_eq!(chars, s.chars().collect::<Vec<char>>());
        for n in needles {
            let expected = s.find(n).map(|b| s[..b].chars().count());
            assert_eq!(find_text(&chars, &chars_of(n)), expected, "{n} in {s}");
        }
        let expected = s.rfind('<').map(|b| s[..b].chars().count());
        assert_eq!(rfind_in(&chars, '<'), expected);
    }
}

#[test]
fn only_ascii_letters_lose_their_case() {
    for s in ["", "AZaz@[`{", "NVIDIA-3 \u{c9}\u{130}"] {
        assert_eq!(
            lower_chars(s),
            s.to_ascii_lowercase().chars().collect::<Vec<char>>()
        );
    }
}

#[test]
fn numbers_are_read_as_std_reads_them() {
    let texts = [
        "", "0", "7", "007", "+5", "-5", "++5", "+", "-0", " 5", "5 ", "5x", "1e3", "\u{0665}",
        "4294967295", "4294967296", "18446744073709551615", "18446744073709551616",
        "99999999999999999999999999", "00000000000000000000000000000001",
    ];
    for s in texts {
        assert_eq!(parse_u64(s), s.parse::<u64>().ok(), "{s}");
        assert_eq!(parse_u32(s), s.parse::<u32>().ok(), "{s}");
    }
}

#[test]
fn equal_texts_are_the_same() {
    assert!(same_text("", ""));
    assert!(same_text("a\u{e9}", "a\u{e9}"));
    assert!(!same_text("a", "b"));
    assert!(!same_text("a", "ab"));
    assert!(!same_text("\u{e9}", "e"));
}

#[test]
fn texts_are_put_together() {
    assert_eq!(concat3("a", "", "b"), "ab");
    assert_eq!(note_image("u"), "[Image: u]");
    assert_eq!(text_or_empty(&Some("a".to_string())), "a");
    assert_eq!(text_or_empty(&None), "");
}

#[test]
fn an_output_with_pieces_is_their_lines() {
    let output = FunctionCallOutputPayload {
        content_items: Some(vec![]),
        text_content: Some("text".to_string()),
    };
    assert_eq!(function_output_text(&output), "");
    let output = FunctionCallOutputPayload {
        content_items: None,
        text_content: Some("text".to_string()),
    };
    assert_eq!(function_output_text(&output), "text");
}
