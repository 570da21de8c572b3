//! Extraction of reasoning from streamed text.

use codex_core::think::{ParsedDelta, ThinkTagParser};

/// The text and the reasoning of a stream that arrives in the given chunks.
fn sorted(chunks: &[&str]) -> (String, String) {
    let mut parser = ThinkTagParser::default();
    let mut text = String::new();
    let mut thinking = String::new();
    let mut deltas = Vec::new();
    for chunk in chunks {
        deltas.extend(parser.feed(chunk));
    }
    deltas.extend(parser.flush());
    for d in deltas {
        match d {
            ParsedDelta::Text(t) => text.push_str(&t),
            ParsedDelta::Thinking(t) => thinking.push_str(&t),
        }
    }
    (text, thinking)
}

fn text(s: &str) -> ParsedDelta {
    ParsedDelta::Text(s.to_string())
}

fn thinking(s: &str) -> ParsedDelta {
    ParsedDelta::Thinking(s.to_string())
}

#[test]
fn test_think_parser_basic() {
    let mut parser = ThinkTagParser::default();
    let deltas = parser.feed("<think>reasoning here</think>actual output");
    let mut thinking = String::new();
    let mut text = String::new();
    for d in deltas {
        match d {
            ParsedDelta::Thinking(t) => thinking.push_str(&t),
            ParsedDelta::Text(t) => text.push_str(&t),
        }
    }
    for d in parser.flush() {
        match d {
            ParsedDelta::Thinking(t) => thinking.push_str(&t),
            ParsedDelta::Text(t) => text.push_str(&t),
        }
    }
    assert_eq!(thinking, "reasoning here");
    assert_eq!(text, "actual output");
}

#[test]
fn test_think_parser_across_chunks() {
    let mut parser = ThinkTagParser::default();
    let mut thinking = String::new();
    let mut text = String::new();

    // Feed in small chunks that split across tag boundaries.
    for chunk in ["<thi", "nk>reas", "oning</thi", "nk>hello"] {
        for d in parser.feed(chunk) {
            match d {
                ParsedDelta::Thinking(t) => thinking.push_str(&t),
                ParsedDelta::Text(t) => text.push_str(&t),
            }
        }
    }
    for d in parser.flush() {
        match d {
            ParsedDelta::Thinking(t) => thinking.push_str(&t),
            ParsedDelta::Text(t) => text.push_str(&t),
        }
    }
    assert_eq!(thinking, "reasoning");
    assert_eq!(text, "hello");
}

#[test]
fn test_think_parser_no_tags() {
    let mut parser = ThinkTagParser::default();
    let deltas = parser.feed("just plain text");
    let mut text = String::new();
    for d in deltas {
        match d {
            ParsedDelta::Text(t) => text.push_str(&t),
            ParsedDelta::Thinking(_) => panic!("unexpected thinking delta"),
        }
    }
    for d in parser.flush() {
        match d {
            ParsedDelta::Text(t) => text.push_str(&t),
            ParsedDelta::Thinking(_) => panic!("unexpected thinking delta"),
        }
    }
    assert_eq!(text, "just plain text");
}

#[test]
fn test_think_parser_multiple_blocks() {
    let mut parser = ThinkTagParser::default();
    let mut thinking = String::new();
    let mut text = String::new();

    for d in parser.feed("<think>first</think>mid<think>second</think>end") {
        match d {
            ParsedDelta::Thinking(t) => thinking.push_str(&t),
            ParsedDelta::Text(t) => text.push_str(&t),
        }
    }
    for d in parser.flush() {
        match d {
            ParsedDelta::Thinking(t) => thinking.push_str(&t),
            ParsedDelta::Text(t) => text.push_str(&t),
        }
    }
    assert_eq!(thinking, "firstsecond");
    assert_eq!(text, "midend");
}

#[test]
fn test_think_parser_flush_inside_think() {
    let mut parser = ThinkTagParser::default();
    let mut thinking = String::new();

    for d in parser.feed("<think>incomplete reasoning") {
        match d {
            ParsedDelta::Thinking(t) => thinking.push_str(&t),
            ParsedDelta::Text(_) => {}
        }
    }
    // Flush without closing tag — remaining content treated as thinking.
    for d in parser.flush() {
        match d {
            ParsedDelta::Thinking(t) => thinking.push_str(&t),
            ParsedDelta::Text(_) => {}
        }
    }
    assert_eq!(thinking, "incomplete reasoning");
}

#[test]
fn feeding_hands_out_what_is_settled() {
    let mut parser = ThinkTagParser::default();
    assert_eq!(parser.feed("ab<"), vec![text("ab")]);
    assert_eq!(parser.buffer, "<");
    assert_eq!(parser.feed("c"), vec![]);
    assert_eq!(parser.buffer, "<c");
    assert_eq!(parser.feed("d<think>e"), vec![text("<cd"), thinking("e")]);
    assert!(parser.inside_think);
    assert_eq!(parser.buffer, "");
    assert_eq!(parser.feed("f</x"), vec![]);
    assert_eq!(parser.buffer, "f</x");
    assert_eq!(parser.feed("</think>g"), vec![thinking("f</x"), text("g")]);
    assert!(!parser.inside_think);
    assert_eq!(parser.flush(), vec![]);
}

#[test]
fn draining_appends_behind_what_is_there() {
    let mut parser = ThinkTagParser {
        inside_think: true,
        buffer: "a</think>b".to_string(),
    };
    let mut results = vec![text("z")];
    parser.drain(&mut results);
    assert_eq!(results, vec![text("z"), thinking("a"), text("b")]);
    assert!(!parser.inside_think);
    assert_eq!(parser.buffer, "");
}

#[test]
fn flushing_empties_the_buffer_and_keeps_the_mode() {
    let mut parser = ThinkTagParser {
        inside_think: true,
        buffer: "</thi".to_string(),
    };
    assert_eq!(parser.flush(), vec![thinking("</thi")]);
    assert!(parser.inside_think);
    assert_eq!(parser.buffer, "");
    assert_eq!(parser.flush(), vec![]);
    let mut parser = ThinkTagParser {
        inside_think: false,
        buffer: "<".to_string(),
    };
    assert_eq!(parser.flush(), vec![text("<")]);
}

#[test]
fn empty_runs_are_no_deltas() {
    let mut parser = ThinkTagParser::default();
    assert_eq!(parser.feed(""), vec![]);
    assert_eq!(parser.feed("<think></think><think>"), vec![]);
    assert!(parser.inside_think);
}

#[test]
fn chunks_do_not_matter() {
    let stream = "a < b <think>x </ y</think>z<thin<think>q</think>\u{e9}nd";
    let whole = sorted(&[stream]);
    assert_eq!(
        whole,
        (
            "a < b z<thin\u{e9}nd".to_string(),
            "x </ yq".to_string()
        )
    );
    let chars: Vec<char> = stream.chars().collect();
    for i in 0..=chars.len() {
        let head: String = chars[..i].iter().collect();
        let tail: String = chars[i..].iter().collect();
        assert_eq!(sorted(&[&head, &tail]), whole, "cut at {i}");
    }
}

#[test]
fn a_closing_tag_may_be_cut_behind_its_first_character() {
    let mut parser = ThinkTagParser::default();
    assert_eq!(parser.feed("<think>a<"), vec![thinking("a")]);
    assert_eq!(parser.buffer, "<");
    assert_eq!(parser.feed("/think>b"), vec![text("b")]);
    assert_eq!(parser.flush(), vec![]);
    assert_eq!(
        sorted(&["<think>a<", "/think>b"]),
        ("b".to_string(), "a".to_string())
    );
    assert_eq!(
        sorted(&["<think></x<", "/think>b"]),
        ("b".to_string(), "</x".to_string())
    );
    // What does not go on as a tag is reasoning.
    assert_eq!(
        sorted(&["<think>a<", "b<", "<", "/think>c"]),
        ("c".to_string(), "a<b<".to_string())
    );
    assert_eq!(sorted(&["<think>a<"]), (String::new(), "a<".to_string()));
}

#[test]
fn one_character_at_a_time_is_the_whole() {
    let stream = "x<think>a</b</think>y<think><</think>z";
    let pieces: Vec<String> = stream.chars().map(|c| c.to_string()).collect();
    let pieces: Vec<&str> = pieces.iter().map(|p| p.as_str()).collect();
    assert_eq!(sorted(&pieces), sorted(&[stream]));
    assert_eq!(
        sorted(&pieces),
        ("xyz".to_string(), "a</b<".to_string())
    );
}

#[test]
fn a_stream_without_a_tag_is_text() {
    for s in ["", "<", "</think>", "<thinks", "< think>", "\u{1f600}<thi"] {
        assert_eq!(sorted(&[s]), (s.to_string(), String::new()));
    }
}
