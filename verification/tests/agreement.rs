//! The Markdown rules checked against the regular expressions that state
//! them, on inputs chosen to reach their corner cases.
use pdf_ocr::markdown::{build_toc, clean_markdown, normalize_compact_bullets, slugify, yaml_string};
use pdf_ocr::server::{extract_markdown, JsonValue};
use regex::Regex;
use serde_json::Value;

fn reference_bullets(line: &str) -> Vec<String> {
    let trimmed = line.trim_start();
    if !trimmed.starts_with("- ") || trimmed.matches("- ").count() < 2 {
        return vec![line.to_string()];
    }
    trimmed
        .split("- ")
        .filter(|part| !part.trim().is_empty())
        .map(|part| format!("- {}", part.trim()))
        .collect()
}

fn reference_slugify(input: &str) -> String {
    let lowered = input.to_lowercase();
    let mut slug = String::with_capacity(lowered.len());
    let mut previous_dash = false;
    for character in lowered.chars() {
        if character.is_ascii_alphanumeric() {
            slug.push(character);
            previous_dash = false;
        } else if !previous_dash {
            slug.push('-');
            previous_dash = true;
        }
    }
    slug.trim_matches('-').to_string()
}

fn reference_yaml(value: &str) -> String {
    format!("\"{}\"", value.replace('\\', "\\\\").replace('"', "\\\""))
}

fn reference_extract(value: &Value) -> Option<String> {
    if let Some(content) = value
        .get("choices")
        .and_then(|choices| choices.get(0))
        .and_then(|choice| choice.get("message"))
        .and_then(|message| message.get("content"))
    {
        if let Some(text) = content.as_str() {
            return Some(text.to_string());
        }
        if let Some(items) = content.as_array() {
            let text = items
                .iter()
                .filter_map(|item| {
                    if item.get("type").and_then(Value::as_str) == Some("text") {
                        item.get("text").and_then(Value::as_str)
                    } else {
                        None
                    }
                })
                .collect::<Vec<_>>()
                .join("\n");
            if !text.trim().is_empty() {
                return Some(text);
            }
        }
    }
    [
        value.get("markdown"),
        value.get("text"),
        value.get("content"),
        value.get("data").and_then(|data| data.get("markdown")),
        value.get("data").and_then(|data| data.get("text")),
        value.get("result").and_then(|data| data.get("markdown")),
        value.get("result").and_then(|data| data.get("text")),
    ]
    .into_iter()
    .flatten()
    .find_map(|candidate| candidate.as_str().map(ToOwned::to_owned))
}

fn to_json_value(value: &Value) -> JsonValue {
    match value {
        Value::Null => JsonValue::Null,
        Value::Bool(flag) => JsonValue::Bool(*flag),
        Value::Number(number) => JsonValue::Number(number.to_string()),
        Value::String(text) => JsonValue::String(text.clone()),
        Value::Array(items) => JsonValue::Array(items.iter().map(to_json_value).collect()),
        Value::Object(members) => JsonValue::Object(
            members.iter().map(|(k, v)| (k.clone(), to_json_value(v))).collect(),
        ),
    }
}

fn reference_clean(raw: &str) -> String {
    let fence_start = Regex::new(r"(?s)^\s*```(?:markdown)?\s*").unwrap();
    let fence_end = Regex::new(r"(?s)\s*```\s*$").unwrap();
    let ocr_artifacts = Regex::new(r"(?m)^[A-Za-z_]+\[\[[^\]]+\]\]\s*$\n?").unwrap();
    let blank_lines = Regex::new(r"\n{3,}").unwrap();

    let normalized = raw.replace("\r\n", "\n");
    let without_start = fence_start.replace(&normalized, "");
    let without_fences = fence_end.replace(&without_start, "");
    let without_artifacts = ocr_artifacts.replace_all(&without_fences, "");
    let normalized_bullets = without_artifacts
        .lines()
        .flat_map(reference_bullets)
        .collect::<Vec<_>>()
        .join("\n");
    let trimmed = normalized_bullets.trim();
    blank_lines.replace_all(trimmed, "\n\n").into_owned()
}

fn reference_toc(markdown: &str) -> String {
    let heading_regex = Regex::new(r"^(#{1,6})\s+(.+?)\s*$").unwrap();
    let mut entries = Vec::new();
    for line in markdown.lines() {
        let Some(captures) = heading_regex.captures(line) else {
            continue;
        };
        let level = captures.get(1).map(|v| v.as_str().len()).unwrap_or(1);
        let title = captures.get(2).map(|v| v.as_str().trim()).unwrap_or("");
        if title.is_empty() {
            continue;
        }
        let indent = "  ".repeat(level.saturating_sub(1));
        entries.push(format!("{indent}- [{title}](#{})", slugify(title)));
    }
    entries.join("\n")
}

const SAMPLES: &[&str] = &[
    "",
    "   ",
    "```",
    "``````",
    "x ````",
    "```markdown",
    "```markdownfoo\nbar```",
    " \t```markdown \n# T\n```\n \n",
    "```\n```\n```",
    "a```  ```",
    "text\n```\n\n",
    "name[[1]]",
    "name[[1]]\n",
    "name[[1]]\n\nfoo",
    "name[[1]] \n \nfoo",
    "name[[1]]  foo",
    "name[[1]]\t\n\t\n",
    "x\nname[[1, 2]]\nname[[3]]\ny",
    "name[[a\nb]]\nrest",
    "name[[]]\nrest",
    "name[[1]\nrest",
    "name[x]]\nrest",
    "na me[[1]]\nrest",
    "_[[9]]\n- a- b\n\n\n\n",
    "line\r\n\r\nname[[1]]\r\n- one- two- three\r\n",
    "\r\r\n\r",
    "- only",
    "  - a - b- c",
    "- - -",
    "-- a- b",
    "a\n\n\nb\n\n\n\n\nc\n\nd",
    "\u{3000}```\u{a0}body\u{2028}```\u{85}",
    "x[[1]]\u{2029}\nz",
];

#[test]
fn clean_markdown_agrees_with_the_regular_expressions() {
    for sample in SAMPLES {
        assert_eq!(clean_markdown(sample), reference_clean(sample), "input {:?}", sample);
    }
}

#[test]
fn table_of_contents_agrees_with_the_regular_expression() {
    let samples = [
        "# A\n## B\n###### Six\n####### Seven",
        "#\tTab\n#  \n# \n#x\n##  spaced  title  \n",
        "# Ünïcode Title\r\n## a\u{a0}b\u{a0}\n#\u{2003}em",
        "text # not\n  # indented\n#",
    ];
    for sample in samples {
        assert_eq!(build_toc(sample), reference_toc(sample), "input {:?}", sample);
    }
}

#[test]
fn bullets_slugs_and_quoting_agree_with_the_std_calls() {
    let lines = [
        "", "-", "- ", "- a", "- a- b", "  - a- b  - c", "-- a- b", "- - -", "a - b - c",
        "\u{a0}- x- y", "- a-\u{a0}b- c", "- \u{3000}- z",
    ];
    for line in lines {
        assert_eq!(normalize_compact_bullets(line), reference_bullets(line), "input {:?}", line);
    }
    let titles = ["Hello World", "  A--B  ", "ÄÖÜ äöü ß", "Ǆ \u{212a}elvin İstanbul", "x_y.z", "---"];
    for title in titles {
        assert_eq!(slugify(title), reference_slugify(title), "input {:?}", title);
        assert_eq!(yaml_string(title), reference_yaml(title), "input {:?}", title);
    }
    for text in ["", "\\", "\"", "a\\\"b", "plain"] {
        assert_eq!(yaml_string(text), reference_yaml(text), "input {:?}", text);
    }
}

#[test]
fn markdown_extraction_agrees_with_the_json_navigation() {
    let answers = [
        r##"{"choices":[{"message":{"content":"# H"}}]}"##,
        r##"{"choices":[{"message":{"content":[{"type":"text","text":"a"},{"type":"image","text":"b"},{"type":"text","text":"c"}]}}]}"##,
        r##"{"choices":[{"message":{"content":[{"type":"text","text":"  "}]}}],"text":"legacy"}"##,
        r##"{"choices":[],"markdown":"m"}"##,
        r##"{"choices":{"0":{"message":{"content":"x"}}},"content":"c"}"##,
        r##"{"markdown":1,"text":null,"data":{"markdown":"d"}}"##,
        r##"{"result":{"text":"r"}}"##,
        r##"[1,2,3]"##,
        r##"{"data":"not an object","result":{"markdown":["x"],"text":"t"}}"##,
        r##"{}"##,
    ];
    for answer in answers {
        let value: Value = serde_json::from_str(answer).unwrap();
        assert_eq!(
            extract_markdown(&to_json_value(&value)),
            reference_extract(&value),
            "answer {}",
            answer
        );
    }
}
