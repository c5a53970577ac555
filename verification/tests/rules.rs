use rustblood::quirk::{self, Character, Quirk};

#[test]
fn strip_line_comments() {
    assert_eq!(quirk::strip_jsonc_comments("a // b", true), "a\n");
    assert_eq!(quirk::strip_jsonc_comments("a // b", false), "a\n");
    assert_eq!(quirk::strip_jsonc_comments("a//b\nc", true), "a\nc\n");
    assert_eq!(quirk::strip_jsonc_comments("// whole line\n{}", true), "\n{}\n");
    assert_eq!(quirk::strip_jsonc_comments("{} // x // y", true), "{}\n");
}

#[test]
fn strip_block_comments() {
    assert_eq!(quirk::strip_jsonc_comments("a /* b */ c", true), "a         c\n");
    assert_eq!(quirk::strip_jsonc_comments("a /* b */ c", false), "a  c\n");
    assert_eq!(quirk::strip_jsonc_comments("a/*b*/c", true), "a     c\n");
    assert_eq!(quirk::strip_jsonc_comments("a/*b*/c", false), "ac\n");
    assert_eq!(
        quirk::strip_jsonc_comments("1 /* one\ntwo */ 2", true),
        "1\n       2\n"
    );
    assert_eq!(quirk::strip_jsonc_comments("1 /* one\ntwo */ 2", false), "1\n 2\n");
}

#[test]
fn strip_nested_block_comments() {
    assert_eq!(
        quirk::strip_jsonc_comments("a /* b /* c */ d */ e", false),
        "a  e\n"
    );
    assert_eq!(
        quirk::strip_jsonc_comments("a /* b /* c */ d */ e", true),
        "a                   e\n"
    );
    assert_eq!(quirk::strip_jsonc_comments("a /* b /* c */ d", false), "a\n");
    assert_eq!(quirk::strip_jsonc_comments("a */ b", false), "a  b\n");
    assert_eq!(quirk::strip_jsonc_comments("a */ b", true), "a    b\n");
}

#[test]
fn strip_keeps_positions() {
    let text = "{ /* c */ \"k\": /* d */ 1 } // e";
    let plain = quirk::strip_jsonc_comments(text, true);
    assert_eq!(plain, "{         \"k\":         1 }\n");
    assert_eq!(plain.find("\"k\""), text.find("\"k\""));
    assert_eq!(plain.find('1'), text.find('1'));
    assert_eq!(plain.find('}'), text.find('}'));
}

#[test]
fn strip_leaves_line_comment_marks_in_block_comments() {
    assert_eq!(quirk::strip_jsonc_comments("a /* b // c */ d", false), "a  d\n");
    assert_eq!(
        quirk::strip_jsonc_comments("a /* b // c */ d", true),
        "a              d\n"
    );
}

#[test]
fn strip_leaves_strings() {
    assert_eq!(
        quirk::strip_jsonc_comments(r#"{"a": "b // c", "d": "/* e */"}"#, true),
        "{\"a\": \"b // c\", \"d\": \"/* e */\"}\n"
    );
    assert_eq!(
        quirk::strip_jsonc_comments(r#""a \" // b" // c"#, true),
        "\"a \\\" // b\"\n"
    );
    assert_eq!(
        quirk::strip_jsonc_comments("\"open\n// still a string\"", true),
        "\"open\n// still a string\"\n"
    );
    assert_eq!(quirk::strip_jsonc_comments(r#""\\" // c"#, true), "\"\\\\\" // c\n");
    assert_eq!(quirk::strip_jsonc_comments("/* \" */ // c", false), "\n");
}

#[test]
fn strip_without_comments_trims_lines() {
    assert_eq!(quirk::strip_jsonc_comments("", true), "\n");
    assert_eq!(quirk::strip_jsonc_comments("a", true), "a\n");
    assert_eq!(quirk::strip_jsonc_comments("a\n", true), "a\n\n");
    assert_eq!(quirk::strip_jsonc_comments("a  \n  b \n   ", true), "a\n  b\n\n");
    assert_eq!(quirk::strip_jsonc_comments("a  \n  b \n   ", false), "a\n  b\n\n");
    assert_eq!(quirk::strip_jsonc_comments("a / b * c", true), "a / b * c\n");
    assert_eq!(quirk::strip_jsonc_comments("é \t \n", true), "é \t\n\n");
}

#[test]
fn rule_documents_are_told_apart() {
    let good = r#"{"handle": "h", "acronym": "a", "quirks": []}"#;
    assert!(quirk::is_rule_document(good));
    assert_eq!(
        Character::from_document(good),
        Some(Character { handle: "h".to_string(), acronym: "a".to_string(), quirks: Vec::new() })
    );
    assert_eq!(
        quirk::parse_safe(good.to_string()),
        Character { handle: "h".to_string(), acronym: "a".to_string(), quirks: Vec::new() }
    );
    let with_more =
        r#"{"quirks": [{"prefix": "p"}], "note": 1, /* c */ "acronym": "a", "handle": "h"} // d"#;
    assert_eq!(
        Character::from_document(with_more),
        Some(Character {
            handle: "h".to_string(),
            acronym: "a".to_string(),
            quirks: vec![Quirk::Prefix("p".to_string())]
        })
    );
    for bad in [
        "",
        "not json",
        "[]",
        "null",
        r#""text""#,
        r#"{"handle": "h", "acronym": "a"}"#,
        r#"{"handle": "h", "quirks": []}"#,
        r#"{"acronym": "a", "quirks": []}"#,
        r#"{"handle": 1, "acronym": "a", "quirks": []}"#,
        r#"{"handle": "h", "acronym": null, "quirks": []}"#,
        r#"{"handle": "h", "acronym": "a", "quirks": {}}"#,
        r#"{"handle": "h", "acronym": "a", "quirks": [1]}"#,
        r#"{"handle": "h", "acronym": "a", "quirks": [{}]}"#,
        r#"{"handle": "h", "acronym": "a", "quirks": [{"prefix": 1}]}"#,
        r#"{"handle": "h", "acronym": "a", "quirks": [{"suffix": ["s"]}]}"#,
        r#"{"handle": "h", "acronym": "a", "quirks": [{"style": 1}]}"#,
        r#"{"handle": "h", "acronym": "a", "quirks": [{"simple_replacements": "x"}]}"#,
        r#"{"handle": "h", "acronym": "a", "quirks": [{"simple_replacements": [["x"]]}]}"#,
        r#"{"handle": "h", "acronym": "a", "quirks": [{"simple_replacements": [["x", 1]]}]}"#,
        r#"{"handle": "h", "acronym": "a", "quirks": [{"simple_replacements": ["x", "y"]}]}"#,
        r#"{"handle": "h", "acronym": "a", "quirks": [{"scramble": [{"x": "y"}]}]}"#,
        r#"{"handle": "h", "acronym": "a", "quirks": [{"regex_replacements": [[1, "y"]]}]}"#,
        r#"{"handle": "h", "acronym": "a", "quirks": [{"random_replacements": [["x", "y"]]}]}"#,
        r#"{"handle": "h", "acronym": "a", "quirks": [{"random_replacements": [["x", ["y", 1]]]}]}"#,
        r#"{"handle": "h", "acronym": "a", "quirks": [{"prefix": "p"}, {"prefix": 2}]}"#,
        r#"{"handle": "h", "acronym": "a", "quirks": []} trailing"#,
        r#"{"handle": "h", /* open "acronym": "a", "quirks": []}"#,
    ] {
        assert!(!quirk::is_rule_document(bad), "{}", bad);
        assert_eq!(Character::from_document(bad), None, "{}", bad);
    }
}

#[test]
fn rule_document_shapes() {
    let c = quirk::parse_safe(
        r#"{"handle": "h", "acronym": "a", "quirks": [
            {"simple_replacements": [["a", "b", "ignored"], ["c", "d"]]},
            {"random_replacements": [["a", [], 7]]},
            {"regex_replacements": []},
            {"scramble": [["", ""]]},
            {"style": "inverted"},
            {"style": "Inverted"},
            {"later": {"deep": [[[{"x": [1e9, -2, "s"]}]]]}}
        ]}"#
        .to_string(),
    );
    assert_eq!(
        c.quirks,
        vec![
            Quirk::SimpleReplacements(vec![
                ("a".to_string(), "b".to_string()),
                ("c".to_string(), "d".to_string())
            ]),
            Quirk::RandomReplacements(vec![("a".to_string(), Vec::new())]),
            Quirk::RegexReplacements(Vec::new()),
            Quirk::Scramble(vec![(String::new(), String::new())]),
            Quirk::Style(quirk::Style::Inverted),
            Quirk::Unknown,
            Quirk::Unknown,
        ]
    );
}

#[test]
fn rule_document_escapes() {
    let c = quirk::parse_safe(
        r#"{"handle": "a\"b\\cé\n", "acronym": "😀", "quirks": []}"#.to_string(),
    );
    assert_eq!(c.handle, "a\"b\\cé\n");
    assert_eq!(c.acronym, "😀");
}

#[test]
fn rule_files_lie_in_quirks() {
    assert_eq!(quirk::rule_file_location("ARADIA"), "./quirks/ARADIA.json");
    assert_eq!(quirk::rule_file_location(""), "./quirks/.json");
}

#[test]
fn strip_keeps_every_character_in_its_column() {
    let text = "{\n  /* a /* nested */ comment */ \"k\": [1, /* x */ 2], // tail\n  \"s\": \"/* kept */\" /* open\n  still open */ }\n";
    let plain = quirk::strip_jsonc_comments(text, true);
    let kept: Vec<&str> = plain.split('\n').collect();
    let lines: Vec<&str> = text.split('\n').collect();
    assert_eq!(kept.len(), lines.len() + 1);
    assert_eq!(kept[kept.len() - 1], "");
    for (k, line) in lines.iter().enumerate() {
        let there: Vec<char> = line.chars().collect();
        let left: Vec<char> = kept[k].chars().collect();
        assert!(left.len() <= there.len());
        for (j, c) in left.iter().enumerate() {
            assert!(*c == there[j] || *c == ' ');
        }
    }
    assert_eq!(
        plain,
        "{\n                               \"k\": [1,         2],\n  \"s\": \"/* kept */\"\n                }\n\n"
    );
}
