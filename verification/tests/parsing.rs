//! The parser exercised through real format engines: a YAML engine built on
//! serde_yaml and a TOML engine built on toml.

use gray_matter::Engine;
use gray_matter::FromValue;
use gray_matter::Matter;
use gray_matter::ParsedEntityStruct;

struct Yaml;

impl Engine for Yaml {
    type Value = serde_yaml::Value;

    fn decode(text: &str) -> Option<serde_yaml::Value> {
        serde_yaml::from_str(text).ok()
    }
}

struct Toml;

impl Engine for Toml {
    type Value = toml::Value;

    fn decode(text: &str) -> Option<toml::Value> {
        text.parse::<toml::Value>().ok()
    }
}

#[derive(PartialEq, Debug)]
struct FrontMatter {
    abc: String,
}

impl FromValue<serde_yaml::Value> for FrontMatter {
    fn from_value(value: serde_yaml::Value) -> Option<Self> {
        Some(FrontMatter {
            abc: value.get("abc")?.as_str()?.to_string(),
        })
    }
}

#[derive(PartialEq, Debug)]
struct FrontMatterVersioned {
    abc: String,
    version: i64,
}

impl FromValue<serde_yaml::Value> for FrontMatterVersioned {
    fn from_value(value: serde_yaml::Value) -> Option<Self> {
        Some(FrontMatterVersioned {
            abc: value.get("abc")?.as_str()?.to_string(),
            version: value.get("version")?.as_i64()?,
        })
    }
}

#[derive(PartialEq, Debug)]
struct FrontMatterName {
    name: String,
}

impl FromValue<serde_yaml::Value> for FrontMatterName {
    fn from_value(value: serde_yaml::Value) -> Option<Self> {
        Some(FrontMatterName {
            name: value.get("name")?.as_str()?.to_string(),
        })
    }
}

#[derive(PartialEq)]
struct FrontMatterNums {
    int: i64,
    float: f64,
}

impl FromValue<toml::Value> for FrontMatterNums {
    fn from_value(value: toml::Value) -> Option<Self> {
        Some(FrontMatterNums {
            int: value.get("int")?.as_integer()?,
            float: value.get("float")?.as_float()?,
        })
    }
}

#[test]
fn test_front_matter() {
    let front_matter = FrontMatter {
        abc: "xyz".to_string(),
    };
    let mut matter: Matter<Yaml> = Matter::new();
    let result: ParsedEntityStruct<FrontMatter> =
        matter.parse_with_struct("---\nabc: xyz\n---").unwrap();
    assert_eq!(
        true,
        result.data == front_matter,
        "should get front matter as {:?}",
        front_matter
    );
    matter.delimiter = "~~~".to_string();
    let result = matter.parse("---\nabc: xyz\n---");
    assert!(result.data.is_none(), "should get no front matter");
    let result: ParsedEntityStruct<FrontMatter> =
        matter.parse_with_struct("~~~\nabc: xyz\n~~~").unwrap();
    assert_eq!(
        result.data, front_matter,
        "{}",
        "should get front matter by custom delimiter"
    );
    let result = matter.parse("\nabc: xyz\n~~~");
    assert!(result.data.is_none(), "should get no front matter");
}

#[test]
fn test_empty_matter() {
    let matter: Matter<Yaml> = Matter::new();
    let table = vec![
        "---\n---\nThis is content",
        "---\n\n---\nThis is content",
        "---\n\n\n\n\n\n---\nThis is content",
        "---\n # this is a comment\n# another one\n# yet another\n---\nThis is content",
    ];
    for input in table.into_iter() {
        let result = matter.parse(input);
        assert!(result.data.is_none(), "should get no front matter");
        assert_eq!(
            result.content, "This is content",
            "should get content as \"This is content\""
        );
    }
}

#[test]
fn test_matter_excerpt() {
    let mut matter: Matter<Yaml> = Matter::new();
    let result: ParsedEntityStruct<FrontMatter> = matter
        .parse_with_struct("---\nabc: xyz\n---\nfoo\nbar\nbaz\n---\ncontent")
        .unwrap();
    assert_eq!(
        result.data.abc,
        "xyz".to_string(),
        "should get front matter xyz as value of abc"
    );
    assert_eq!(
        result.content,
        "foo\nbar\nbaz\n---\ncontent".to_string(),
        "should get content as \"foo\nbar\nbaz\n---\ncontent\"",
    );
    assert_eq!(
        result.excerpt.unwrap(),
        "foo\nbar\nbaz",
        "should get an excerpt after front matter"
    );
    matter.excerpt_delimiter = Some("<!-- endexcerpt -->".to_string());
    let result: ParsedEntityStruct<FrontMatter> = matter
        .parse_with_struct("---\nabc: xyz\n---\nfoo\nbar\nbaz\n<!-- endexcerpt -->\ncontent")
        .unwrap();
    assert_eq!(
        true,
        result.data.abc == "xyz".to_string(),
        "should get front matter xyz as value of abc"
    );
    assert_eq!(
        true,
        result.content == "foo\nbar\nbaz\n<!-- endexcerpt -->\ncontent".to_string(),
        "should use a custom separator"
    );
    assert_eq!(
        result.excerpt.unwrap(),
        "foo\nbar\nbaz",
        "should get excerpt as \"foo\nbar\nbaz\""
    );
    let result = matter.parse("foo\nbar\nbaz\n<!-- endexcerpt -->\ncontent");
    assert!(result.data.is_none(), "should get no front matter");
    assert_eq!(
        true,
        result.content == "foo\nbar\nbaz\n<!-- endexcerpt -->\ncontent".to_string(),
        "should get content as \"foo\nbar\nbaz\n<!-- endexcerpt -->\ncontent\"",
    );
    assert_eq!(
        result.excerpt.unwrap(),
        "foo\nbar\nbaz",
        "should use a custom separator when no front-matter exists"
    );
}

#[test]
fn test_parser() {
    let matter: Matter<Yaml> = Matter::new();
    let raw = "---whatever\nabc: xyz\n---".to_string();
    let result = matter.parse(&raw);
    assert!(
        result.data.is_none(),
        "extra characters should get no front matter"
    );
    assert!(
        !result.content.is_empty(),
        "Looks similar to front matter:\n{}\nIs really just content.",
        raw
    );
    let result = matter.parse("--- true\n---");
    assert!(
        result.data.is_none(),
        "boolean yaml types should get no front matter"
    );
    let result = matter.parse("--- 233\n---");
    assert!(
        result.data.is_none(),
        "number yaml types should get no front matter"
    );
    assert!(
        matter.parse("").data.is_none(),
        "Empty string should give `data` = None."
    );
    let result: ParsedEntityStruct<FrontMatterVersioned> = matter.parse_with_struct("---\nabc: xyz\nversion: 2\n---\n\n<span class=\"alert alert-info\">This is an alert</span>\n").unwrap();
    let data_expected = FrontMatterVersioned {
        abc: "xyz".to_string(),
        version: 2,
    };
    assert_eq!(
        true,
        data_expected == result.data,
        "should get front matter as {:?}",
        data_expected
    );
    let content_expected =
        "<span class=\"alert alert-info\">This is an alert</span>".to_string();
    assert_eq!(
        result.content, content_expected,
        "should get content as {:?}",
        content_expected
    );
    let result: ParsedEntityStruct<FrontMatterName> = matter
        .parse_with_struct(
            r#"---
name: "troublesome --- value"
---
here is some content
"#,
        )
        .unwrap();
    let data_expected = FrontMatterName {
        name: "troublesome --- value".to_string(),
    };
    assert_eq!(
        true,
        result.data == data_expected,
        "should correctly identify delimiters and ignore strings that look like delimiters and get front matter as {:?}", data_expected
    );
    let result: ParsedEntityStruct<FrontMatterName> = matter
        .parse_with_struct("---\nname: \"troublesome --- value\"\n---")
        .unwrap();
    assert_eq!(
        true,
        result.data == data_expected,
        "should correctly parse a string that only has an opening delimiter and get front matter as {:?}", data_expected
    );
    let result = matter.parse("-----------name--------------value\nfoo");
    assert!(
        result.data.is_none(),
        "should not try to parse a string has content that looks like front-matter"
    );
    let result = matter.parse("---\nname: ---\n---\n---\n");
    assert_eq!(
        result.content, "---",
        "should correctly handle rogue delimiter"
    );
    let result = matter.parse("---\nname: bar\n---\n---\n---");
    assert_eq!(
        result.content, "---\n---",
        "should correctly handle two rogue delimiter"
    );
}

#[test]
fn test_int_vs_float() {
    let raw = r#"---
int = 42
float = 3.14159265
---"#;
    let matter: Matter<Toml> = Matter::new();
    let result = matter.parse_with_struct::<FrontMatterNums>(raw).unwrap();

    assert_eq!(result.data.int, 42 as i64);
    assert_eq!(result.data.float, 3.14159265 as f64);
}
