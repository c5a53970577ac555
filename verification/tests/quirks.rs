use rustblood::quirk::{self, Character, Quirk, Style};

const FOX: &str = "The quick brown fox jumped over the lazy dog.";

fn yours(quirks: &str) -> Character {
    let data = format!(
        r#"
        {{
            "handle": "yourHandle",
            "acronym": "YH",
            "quirks": [
                {}
            ]
        }}
        "#,
        quirks
    );
    quirk::parse_safe(data)
}

#[test]
fn can_combine_quirks() {
    let data = r#"
        {
            "handle": "yourHandle",
            "acronym": "YH",
            "quirks": [
                {
                    "style": "reverse"
                },
                {
                    "style": "uppercase"
                }
            ]
        }
        "#;
    let c = quirk::parse_safe(data.to_string());
    let test_string = "The quick brown fox jumped over the lazy dog.";

    let mutated_string = c.quirked(test_string);

    assert!(mutated_string == "YH: .GOD YZAL EHT REVO DEPMUJ XOF NWORB KCIUQ EHT");
}

#[test]
fn can_deserialize_without_unicode() {
    let data = r#"
            // 'quirks' is an array of dicts that describes operations to be done on a string.
            // 'handle' is just a convenience for the script to display for debugging.
            //
            // Possible quirks:
            //                  prefix:
            //                  Adds the following characters to the beginning of the string.
            {
                "handle": "yourHandle",
                "acronym": "YH",
                "quirks": [
                    {
                        "prefix": ">>> "
                    },
                    {
                        "simple_replacements": [
                            [
                                "z", "zee"
                            ]
                        ]
                    },
                    {
                        "random_replacements": [
                            [
                                "lmao", ["laughing my ass off", "assing my laugh off", "hahahaha"] // lol
                            ]
                        ]
                    },
                    {
                        "scramble": [
                            [
                                "fuck", "%&#@"
                            ],
                            [
                                "shit", "%&!@"
                            ],
                            [
                                "ass", "@$%"
                            ]
                        ]
                    },
                    {
                        "suffix": " <<<"
                    },
                    {
                        "style": "lowercase"
                    }
                ]
            }
            "#;
    let c = quirk::parse_safe(data.to_string());
    assert_eq!(c.handle, "yourHandle");
    assert_eq!(c.acronym, "YH");
    assert_eq!(c.quirks.len(), 6);
    assert_eq!(c.quirks[0], Quirk::Prefix(">>> ".to_string()));
    assert_eq!(
        c.quirks[1],
        Quirk::SimpleReplacements(vec![("z".to_string(), "zee".to_string())])
    );
    assert_eq!(
        c.quirks[2],
        Quirk::RandomReplacements(vec![(
            "lmao".to_string(),
            vec![
                "laughing my ass off".to_string(),
                "assing my laugh off".to_string(),
                "hahahaha".to_string()
            ]
        )])
    );
    assert_eq!(
        c.quirks[3],
        Quirk::Scramble(vec![
            ("fuck".to_string(), "%&#@".to_string()),
            ("shit".to_string(), "%&!@".to_string()),
            ("ass".to_string(), "@$%".to_string())
        ])
    );
    assert_eq!(c.quirks[4], Quirk::Suffix(" <<<".to_string()));
    assert_eq!(c.quirks[5], Quirk::Style(Style::Lowercase));
}

#[test]
fn can_deserialize_with_unicode() {
    let data = r#"
            {
                // Comment
                // Test goes
                // Here
                "handle": "lowhungNoose",
                "acronym": "LN",
                "quirks": [
                    {
                        "prefix": "C>lll= "
                    },
                    {
                        "simple_replacements": [
                            [
                                "A", "Д"
                            ],
                            [
                                "io", "Ю"
                            ],
                            [
                                "y", "ч"
                            ]
                        ]
                    },
                    {
                        "suffix": " ==" // Comment test
                    }
                ]
            }
            "#;
    let c = quirk::parse_safe(data.to_string());
    assert!(c.quirks.len() > 0);
    assert_eq!(c.quirks[0], Quirk::Prefix("C>lll= ".to_string()));
    assert_eq!(
        c.quirks[1],
        Quirk::SimpleReplacements(vec![
            ("A".to_string(), "Д".to_string()),
            ("io".to_string(), "Ю".to_string()),
            ("y".to_string(), "ч".to_string())
        ])
    );
    assert_eq!(c.quirks[2], Quirk::Suffix(" ==".to_string()));
    assert_eq!(c.quirked("Any radio"), "LN: C>lll= Дnч radЮ ==");
}

#[test]
fn can_prefix_without_unicode() {
    let c = yours(r#"{ "prefix": ">>> " }"#);
    assert_eq!(c.quirked(FOX), format!("YH: >>> {}", FOX));
}

#[test]
fn can_prefix_with_unicode() {
    let c = yours(r#"{ "prefix": "𝖟∞ " }"#);
    assert_eq!(c.quirked(FOX), format!("YH: 𝖟∞ {}", FOX));
}

#[test]
fn can_suffix_without_unicode() {
    let c = yours(r#"{ "suffix": " <<<" }"#);
    assert_eq!(c.quirked(FOX), format!("YH: {} <<<", FOX));
}

#[test]
fn can_suffix_with_unicode() {
    let c = yours(r#"{ "suffix": " 𝖟∞" }"#);
    assert_eq!(c.quirked(FOX), format!("YH: {} 𝖟∞", FOX));
}

#[test]
fn can_simple_replace_without_unicode() {
    let c = yours(r#"{ "simple_replacements": [["z", "zee"], ["The", "Da"]] }"#);
    assert_eq!(
        c.quirked(FOX),
        "YH: Da quick brown fox jumped over the lazeey dog."
    );
}

#[test]
fn can_simple_replace_with_unicode() {
    let c = yours(r#"{ "simple_replacements": [["z", "z𝖟𝖟"], ["The", "Da"]] }"#);
    assert_eq!(
        c.quirked(FOX),
        "YH: Da quick brown fox jumped over the laz𝖟𝖟y dog."
    );
}

#[test]
fn simple_replacements_see_what_earlier_ones_left() {
    let c = yours(r#"{ "simple_replacements": [["a", "b"], ["b", "c"]] }"#);
    assert_eq!(c.quirked("abba"), "YH: cccc");
}

#[test]
fn simple_replacement_does_not_overlap() {
    let c = yours(r#"{ "simple_replacements": [["aa", "b"]] }"#);
    assert_eq!(c.quirked("aaaaa"), "YH: bba");
}

#[test]
fn simple_replacement_of_nothing_goes_between_all_characters() {
    let c = yours(r#"{ "simple_replacements": [["", "-"]] }"#);
    assert_eq!(c.quirked("abc"), "YH: -a-b-c-");
    assert_eq!(c.quirked(""), "YH: -");
    assert_eq!("abc".replace("", "-"), "-a-b-c-");
}

#[test]
fn can_random_replace_without_unicode() {
    let c = yours(r#"{ "random_replacements": [["brown", ["red", "blue", "green"]]] }"#);
    for _ in 0..50 {
        let mutated_string = c.quirked(FOX);
        assert!(
            mutated_string == "YH: The quick red fox jumped over the lazy dog."
                || mutated_string == "YH: The quick blue fox jumped over the lazy dog."
                || mutated_string == "YH: The quick green fox jumped over the lazy dog."
        );
    }
}

#[test]
fn can_random_replace_with_unicode() {
    let c = yours(r#"{ "random_replacements": [["brown", ["𝓻𝖟𝓭", "𝓫𝓵𝓊𝓮", "𝓰𝓻𝓮𝓮𝓷"]]] }"#);
    for _ in 0..50 {
        let mutated_string = c.quirked(FOX);
        assert!(
            mutated_string == "YH: The quick 𝓻𝖟𝓭 fox jumped over the lazy dog."
                || mutated_string == "YH: The quick 𝓫𝓵𝓊𝓮 fox jumped over the lazy dog."
                || mutated_string == "YH: The quick 𝓰𝓻𝓮𝓮𝓷 fox jumped over the lazy dog."
        );
    }
}

#[test]
fn random_replacement_picks_for_each_occurrence() {
    let c = yours(r#"{ "random_replacements": [["x", ["a", "b", "c"]]] }"#);
    let mut seen_mixed = false;
    for _ in 0..200 {
        let out = c.quirked("x x x x x x x x");
        let body = out.strip_prefix("YH: ").unwrap();
        let picks: Vec<&str> = body.split(' ').collect();
        assert_eq!(picks.len(), 8);
        for p in picks.iter() {
            assert!(*p == "a" || *p == "b" || *p == "c");
        }
        if picks.iter().any(|p| *p != picks[0]) {
            seen_mixed = true;
        }
    }
    assert!(seen_mixed);
}

#[test]
fn random_replacement_leaves_its_own_picks_alone() {
    let c = yours(r#"{ "random_replacements": [["a", ["aa"]]] }"#);
    assert_eq!(c.quirked("a a"), "YH: aa aa");
}

#[test]
fn can_regex_replace_without_unicode() {
    let c = yours(
        r#"{ "regex_replacements": [["(?P<y>\\d{4})-(?P<m>\\d{2})-(?P<d>\\d{2})", "$m/$d/$y"]] }"#,
    );
    assert_eq!(
        c.quirked("The quick 2014-01-01 brown fox jumped over the lazy dog."),
        "YH: The quick 01/01/2014 brown fox jumped over the lazy dog."
    );
}

#[test]
fn can_regex_replace_with_unicode() {
    let c = yours(
        r#"{ "regex_replacements": [["(?P<y>\\d{4})-(?P<m>\\d{2})-(?P<d>\\d{2})", "${m}𝓵${d}𝓵${y}"]] }"#,
    );
    assert_eq!(
        c.quirked("The quick 2014-01-01 brown fox jumped over the lazy dog."),
        "YH: The quick 01𝓵01𝓵2014 brown fox jumped over the lazy dog."
    );
}

#[test]
fn regex_replacements_go_in_turn() {
    let c = yours(r#"{ "regex_replacements": [["a+", "b"], ["b", "c"]] }"#);
    assert_eq!(c.quirked("aaa b"), "YH: c c");
}

fn sorted_chars(s: &str) -> Vec<char> {
    let mut v: Vec<char> = s.chars().collect();
    v.sort();
    v
}

#[test]
fn can_scramble_without_unicode() {
    let c = yours(r#"{ "scramble": [["quick", "red"], ["jumped", "blue"], ["lazy", "green"]] }"#);
    for _ in 0..20 {
        let mutated_string = c.quirked(FOX);
        assert!(!mutated_string.contains("quick"));
        assert!(!mutated_string.contains("jumped"));
        assert!(!mutated_string.contains("lazy"));
        let words: Vec<&str> = mutated_string.split(' ').collect();
        assert_eq!(words.len(), 10);
        assert_eq!(words[0], "YH:");
        assert_eq!(sorted_chars(words[2]), sorted_chars("red"));
        assert_eq!(sorted_chars(words[5]), sorted_chars("blue"));
        assert_eq!(sorted_chars(words[8]), sorted_chars("green"));
    }
}

#[test]
fn can_scramble_with_unicode() {
    let c = yours(r#"{ "scramble": [["quick", "𝓻𝖟𝓭"], ["jumped", "𝓫𝓵𝓊𝓮"], ["lazy", "𝓰𝓻𝓮𝓮𝓷"]] }"#);
    let mutated_string = c.quirked(FOX);
    assert!(!mutated_string.contains("quick"));
    assert!(!mutated_string.contains("jumped"));
    assert!(!mutated_string.contains("lazy"));
    assert!(mutated_string.contains("𝖟"));
    assert!(mutated_string.contains("𝓵"));
    assert!(mutated_string.contains("𝓰"));
}

#[test]
fn scramble_keeps_grapheme_clusters_whole() {
    let c = yours(r#"{ "scramble": [["x", "aéö"]] }"#);
    let mut orders = std::collections::BTreeSet::new();
    for _ in 0..200 {
        let out = c.quirked("x");
        let body = out.strip_prefix("YH: ").unwrap().to_string();
        let allowed = [
            "ae\u{301}o\u{308}",
            "ao\u{308}e\u{301}",
            "e\u{301}ao\u{308}",
            "e\u{301}o\u{308}a",
            "o\u{308}ae\u{301}",
            "o\u{308}e\u{301}a",
        ];
        assert!(allowed.contains(&body.as_str()));
        orders.insert(body);
    }
    assert!(orders.len() > 1);
}

#[test]
fn can_lowercase_style_without_unicode() {
    let c = yours(r#"{ "style": "lowercase" }"#);
    assert_eq!(
        c.quirked(FOX),
        "YH: the quick brown fox jumped over the lazy dog."
    );
}

#[test]
fn can_lowercase_style_with_unicode() {
    let c = yours(r#"{ "style": "lowercase" }"#);
    assert_eq!(
        c.quirked("Тhe quick brown fox jumped over the lazy dog."),
        "YH: тhe quick brown fox jumped over the lazy dog."
    );
}

#[test]
fn can_uppercase_style_without_unicode() {
    let c = yours(r#"{ "style": "uppercase" }"#);
    assert_eq!(
        c.quirked(FOX),
        "YH: THE QUICK BROWN FOX JUMPED OVER THE LAZY DOG."
    );
}

#[test]
fn can_uppercase_style_with_unicode() {
    let c = yours(r#"{ "style": "uppercase" }"#);
    assert_eq!(
        c.quirked("Thэ quick brown fox jumped over the lazy dog."),
        "YH: THЭ QUICK BROWN FOX JUMPED OVER THE LAZY DOG."
    );
}

#[test]
fn uppercase_style_twice_is_uppercase_style_once() {
    let once = yours(r#"{ "style": "uppercase" }"#);
    let twice = yours(r#"{ "style": "uppercase" }, { "style": "uppercase" }"#);
    for s in [FOX, "straße", "ŉ and ǆ", "Thэ quick", "", "ﬁn"] {
        assert_eq!(once.quirked(s), twice.quirked(s));
    }
    assert_eq!(once.quirked("straße"), "YH: STRASSE");
}

#[test]
fn can_alternating_style_without_unicode() {
    let c = yours(r#"{ "style": "alternating" }"#);
    assert_eq!(
        c.quirked(FOX),
        "YH: ThE QuIcK BrOwN FoX JuMpEd oVeR ThE LaZy dOg."
    );
}

#[test]
fn can_alternating_style_with_unicode() {
    let c = yours(r#"{ "style": "alternating" }"#);
    assert_eq!(
        c.quirked("Thэ quick brown fox jumped over the lazy dog."),
        "YH: ThЭ QuIcK BrOwN FoX JuMpEd oVeR ThE LaZy dOg."
    );
}

#[test]
fn alternating_style_counts_grapheme_clusters() {
    let c = yours(r#"{ "style": "alternating" }"#);
    assert_eq!(c.quirked("e\u{301}ab"), "YH: E\u{301}aB");
}

#[test]
fn can_camelcase_style_without_unicode() {
    let c = yours(r#"{ "style": "camelcase" }"#);
    assert_eq!(
        c.quirked(FOX),
        "YH: The Quick Brown Fox Jumped Over The Lazy Dog."
    );
}

#[test]
fn can_camelcase_style_with_unicode() {
    let c = yours(r#"{ "style": "camelcase" }"#);
    assert_eq!(
        c.quirked("Thэ quick эrown fox jumped over the lazy dog."),
        "YH: Thэ Quick Эrown Fox Jumped Over The Lazy Dog."
    );
}

#[test]
fn can_reverse_style_without_unicode() {
    let c = yours(r#"{ "style": "reverse" }"#);
    assert_eq!(
        c.quirked(FOX),
        "YH: .god yzal eht revo depmuj xof nworb kciuq ehT"
    );
}

#[test]
fn can_reverse_style_with_unicode() {
    let c = yours(r#"{ "style": "reverse" }"#);
    assert_eq!(
        c.quirked("Thэ quick brown fox jumped over the lazy dog."),
        "YH: .god yzal eht revo depmuj xof nworb kciuq эhT"
    );
}

#[test]
fn reverse_style_keeps_grapheme_clusters_whole() {
    let c = yours(r#"{ "style": "reverse" }"#);
    assert_eq!(c.quirked("ae\u{301}o"), "YH: oe\u{301}a");
}

#[test]
fn can_inverted_style_without_unicode() {
    let c = yours(r#"{ "style": "inverted" }"#);
    assert_eq!(
        c.quirked(FOX),
        "YH: tHE QUICK BROWN FOX JUMPED OVER THE LAZY DOG."
    );
}

#[test]
fn can_inverted_style_with_unicode() {
    let c = yours(r#"{ "style": "inverted" }"#);
    assert_eq!(
        c.quirked("Thэ quick brown fox jumped over the lazy dog."),
        "YH: tHЭ QUICK BROWN FOX JUMPED OVER THE LAZY DOG."
    );
}

#[test]
fn quirks_are_deterministic() {
    let c = yours(
        r#"
                {
                    "style": "lowercase"
                },
                {
                    "prefix": ">_ "
                },
                {
                    "suffix": "`"
                },
                {
                    "simple_replacements": [
                        ["lorem", "[<censor>]"],
                        ["ipsum", "[<censor>]"],
                        ["dolar", "[<censor>]"],
                        ["somet", "[<mini-censor>]"]
                    ]
                },
                {
                    "simple_replacements": [
                        ["<mini-censor>", "▜▟"],
                        ["<censor>", "▛▜▟▙"]
                    ]
                },
                {
                    "simple_replacements": [
                        [".", ""],
                        [",", ""],
                        ["'", ""],
                        ["ing", "in"],
                        ["l", "1"],
                        ["i", "1"],
                        ["o", "0"]
                    ]
                }
        "#,
    );
    for _ in 0..5 {
        let mutated_string = c.quirked("The lorem dolar fox jumped ipsum the somet dog.");
        assert_eq!(
            mutated_string,
            "YH: >_ the [▛▜▟▙] [▛▜▟▙] f0x jumped [▛▜▟▙] the [▜▟] d0g`"
        );
    }
}

#[test]
fn no_quirks_leave_the_text() {
    let c = yours("");
    assert_eq!(c.quirks.len(), 0);
    assert_eq!(c.quirked(FOX), format!("YH: {}", FOX));
    assert_eq!(quirk::mutate_line_multi(FOX, &c.quirks), FOX);
}

#[test]
fn prefix_then_suffix() {
    let c = yours(r#"{ "prefix": "<< " }, { "suffix": " >>" }"#);
    assert_eq!(quirk::mutate_line_multi("X", &c.quirks), "<< X >>");
    assert_eq!(
        quirk::mutate_line("X", &Quirk::Prefix("P".to_string())),
        "PX"
    );
    assert_eq!(
        quirk::mutate_line("X", &Quirk::Suffix("S".to_string())),
        "XS"
    );
}

#[test]
fn unknown_operations_and_styles_do_nothing() {
    let c = yours(r#"{ "glitch": [1, 2.5, null, true, {"a": []}] }, { "style": "sideways" }"#);
    assert_eq!(c.quirks, vec![Quirk::Unknown, Quirk::Unknown]);
    assert!(c.is_ready());
    assert_eq!(c.quirked(FOX), format!("YH: {}", FOX));
    assert_eq!(quirk::mutate_line(FOX, &Quirk::Unknown), FOX);
}

#[test]
fn first_member_of_an_operation_counts() {
    let c = yours(r#"{ "suffix": "!", "prefix": ">" }"#);
    assert_eq!(c.quirks, vec![Quirk::Prefix(">".to_string())]);
}

#[test]
fn capitalize_first_character_only() {
    assert_eq!(quirk::capitalize("hello World"), "Hello World");
    assert_eq!(quirk::capitalize(""), "");
    assert_eq!(quirk::capitalize("ßa"), "SSa");
    assert_eq!(quirk::capitalize(" x"), " x");
    assert_eq!(quirk::capitalize("эхо"), "Эхо");
}

#[test]
fn invert_capitalization_swaps_case() {
    assert_eq!(quirk::invert_capitalization("Hello, World 1!"), "hELLO, wORLD 1!");
    assert_eq!(quirk::invert_capitalization(""), "");
    assert_eq!(quirk::invert_capitalization("ßİ"), "SSi\u{307}");
}

#[test]
fn invalid_pattern_is_not_ready() {
    let c = yours(r#"{ "prefix": "a" }, { "regex_replacements": [["a", "b"], ["foo(bar", "x"]] }"#);
    assert!(c.quirks[0].is_ready());
    assert!(!c.quirks[1].is_ready());
    assert!(!c.is_ready());
    let fine = yours(r#"{ "regex_replacements": [["q", "b"], ["foo(bar)", "x"]] }"#);
    assert!(fine.is_ready());
    assert_eq!(fine.quirked("q foobar"), "YH: b x");
}

#[test]
fn empty_choices_are_not_ready() {
    let c = yours(r#"{ "random_replacements": [["a", ["b"]], ["c", []]] }"#);
    assert!(!c.is_ready());
    let fine = yours(r#"{ "random_replacements": [["a", ["b"]], ["c", ["d"]]] }"#);
    assert!(fine.is_ready());
    assert_eq!(fine.quirked("abc"), "YH: bbd");
}
