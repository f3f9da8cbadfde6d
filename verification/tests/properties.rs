//! Scenario tests for the parser's stated behaviour on concrete documents:
//! degenerate inputs, round trips, re-parsing, quoted fence tokens, custom
//! delimiters, excerpts, rogue fences and whitespace handling.

use gray_matter::Engine;
use gray_matter::FromValue;
use gray_matter::Matter;

struct YamlEngine;

impl Engine for YamlEngine {
    type Value = serde_yaml::Value;

    fn decode(text: &str) -> Option<serde_yaml::Value> {
        serde_yaml::from_str(text).ok()
    }
}

#[derive(PartialEq, Debug)]
struct TitleShape {
    title: String,
}

impl FromValue<serde_yaml::Value> for TitleShape {
    fn from_value(value: serde_yaml::Value) -> Option<Self> {
        Some(TitleShape {
            title: value.get("title")?.as_str()?.to_string(),
        })
    }
}

#[test]
fn short_inputs_yield_nothing() {
    let matter: Matter<YamlEngine> = Matter::new();
    let result = matter.parse("");
    assert!(result.data.is_none());
    assert!(result.excerpt.is_none());
    assert_eq!(result.content, "");
    assert_eq!(result.orig, "");
    assert_eq!(result.matter, "");
    // as long as the fence or shorter: nothing, content included
    let result = matter.parse("ab");
    assert!(result.data.is_none());
    assert!(result.excerpt.is_none());
    assert_eq!(result.content, "");
    assert_eq!(result.orig, "ab");
    let result = matter.parse("---");
    assert!(result.data.is_none());
    assert_eq!(result.content, "");
}

#[test]
fn round_trip_body_and_matter() {
    let matter: Matter<YamlEngine> = Matter::new();
    let input = "---\ntitle: Home\n---\nOther stuff";
    let result = matter.parse(input);
    assert_eq!(result.matter, "title: Home");
    assert_eq!(result.content, "Other stuff");
    assert_eq!(result.orig, input);
    let typed = matter.parse_with_struct::<TitleShape>(input).unwrap();
    assert_eq!(
        typed.data,
        TitleShape {
            title: "Home".to_string()
        }
    );
}

#[test]
fn reparsing_content_is_idempotent() {
    let matter: Matter<YamlEngine> = Matter::new();
    let result = matter.parse("---\ntitle: Home\n---\n\n  first line\nsecond line\n\n");
    assert_eq!(result.content, "first line\nsecond line");
    let again = matter.parse(&result.content);
    assert_eq!(again.content, result.content);
    assert!(again.data.is_none());
    assert!(again.excerpt.is_none());
}

#[test]
fn quoted_fence_token_does_not_close_matter() {
    let matter: Matter<YamlEngine> = Matter::new();
    let result = matter.parse("---\nname: \"troublesome --- value\"\n---\nhere is some content\n");
    assert_eq!(result.matter, "name: \"troublesome --- value\"");
    assert_eq!(result.content, "here is some content");
    assert!(result.data.is_some());
}

#[test]
fn comment_only_matter_keeps_lone_hash() {
    let matter: Matter<YamlEngine> = Matter::new();
    // a '#' with text after it is a comment line and is stripped
    let result = matter.parse("---\n# note\n---\nBody");
    assert!(result.data.is_none());
    assert_eq!(result.matter, "");
    assert_eq!(result.content, "Body");
    // a lone '#' is not a comment match (nothing follows it) and is kept
    let result = matter.parse("---\n#\n---\nBody");
    assert_eq!(result.matter, "#");
    assert_eq!(result.content, "Body");
}

#[test]
fn custom_delimiter_switches_recognition() {
    let mut matter: Matter<YamlEngine> = Matter::new();
    matter.delimiter = "~~~".to_string();
    let result = matter.parse("---\nabc: xyz\n---");
    assert!(result.data.is_none());
    assert_eq!(result.matter, "");
    let result = matter.parse("~~~\nabc: xyz\n~~~");
    assert_eq!(result.matter, "abc: xyz");
    assert!(result.data.is_some());
}

#[test]
fn excerpt_stays_inside_content() {
    let matter: Matter<YamlEngine> = Matter::new();
    let result = matter.parse("---\nabc: xyz\n---\nfoo\nbar\nbaz\n---\ncontent");
    assert_eq!(result.excerpt.unwrap(), "foo\nbar\nbaz");
    assert_eq!(result.content, "foo\nbar\nbaz\n---\ncontent");
}

#[test]
fn custom_excerpt_delimiter_without_matter() {
    let mut matter: Matter<YamlEngine> = Matter::new();
    matter.excerpt_delimiter = Some("<!-- endexcerpt -->".to_string());
    let result = matter.parse("lead\n<!-- endexcerpt -->\nrest");
    assert!(result.data.is_none());
    assert_eq!(result.excerpt.unwrap(), "lead");
    assert_eq!(result.content, "lead\n<!-- endexcerpt -->\nrest");
}

#[test]
fn rogue_trailing_delimiters_stay_in_content() {
    let matter: Matter<YamlEngine> = Matter::new();
    let result = matter.parse("---\nname: bar\n---\n---\n---");
    assert_eq!(result.content, "---\n---");
    assert_eq!(result.matter, "name: bar");
}

#[test]
fn fence_lines_ignore_trailing_whitespace() {
    let matter: Matter<YamlEngine> = Matter::new();
    let result = matter.parse("--- \t\nabc: xyz\n---  \nBody here");
    assert_eq!(result.matter, "abc: xyz");
    assert_eq!(result.content, "Body here");
}

#[test]
fn unclosed_fence_folds_into_content() {
    let matter: Matter<YamlEngine> = Matter::new();
    let result = matter.parse("---\nabc: xyz\nno closing fence");
    assert!(result.data.is_none());
    assert_eq!(result.matter, "");
    assert_eq!(result.content, "abc: xyz\nno closing fence");
}

#[test]
fn degenerate_guard_counts_bytes_not_characters() {
    let matter: Matter<YamlEngine> = Matter::new();
    // two characters but six bytes: longer than the three-byte fence, so the
    // document is scanned and becomes content
    let input = "\u{65E5}\u{672C}";
    let result = matter.parse(input);
    assert!(result.data.is_none());
    assert_eq!(result.content, input);
    // one character, three bytes: no longer than the fence, so nothing
    let result = matter.parse("\u{65E5}");
    assert_eq!(result.content, "");
}

#[test]
fn medium_mathematical_space_is_whitespace() {
    let matter: Matter<YamlEngine> = Matter::new();
    // U+205F after a fence token is trailing whitespace: the line still closes
    let result = matter.parse("---\u{205F}\nabc: xyz\n---\u{205F}\nBody");
    assert_eq!(result.matter, "abc: xyz");
    assert_eq!(result.content, "Body");
    // and it is trimmed off the content's edges
    let result = matter.parse("---\nabc: xyz\n---\n\u{205F}Body\u{205F}");
    assert_eq!(result.content, "Body");
}

#[test]
fn crlf_line_endings_are_recognized() {
    let matter: Matter<YamlEngine> = Matter::new();
    let result = matter.parse("---\r\nabc: xyz\r\n---\r\nBody");
    assert_eq!(result.matter, "abc: xyz");
    assert_eq!(result.content, "Body");
    assert!(result.data.is_some());
}
