use rustblood::quirk::{self, Character, Characters, Line};

fn aradia() -> Character {
    quirk::parse_safe(
        r#"
        {
            "handle": "apocalypseArisen",
            "acronym": "AA",
            "quirks": [
                { "style": "lowercase" }
            ]
        }
        "#
        .to_string(),
    )
}

fn terse_aradia() -> Character {
    quirk::parse_safe(
        r#"
        {
            "handle": "apocalypseArisen",
            "acronym": "AA",
            "quirks": [
                { "style": "lowercase" },
                { "simple_replacements": [[".", ""]] }
            ]
        }
        "#
        .to_string(),
    )
}

fn characters_with(text: &str, aradia: fn() -> Character) -> Characters {
    let mut rules = Vec::new();
    for name in quirk::referenced_names(text) {
        if name == "ARADIA" {
            rules.push((name, aradia()));
        }
    }
    Characters::from_string(text, rules)
}

fn characters_of(text: &str) -> Characters {
    characters_with(text, aradia)
}

#[test]
fn can_quirk_multiline() {
    let string = r#"ARADIA: Lorem ipsum dolar somet.
NOTRADIA: Nothing to see here."#;

    let expected_string = r#"AA: lorem ipsum dolar somet
NOTRADIA: Nothing to see here."#;

    let cs = characters_with(string, terse_aradia);
    let quirked_text = cs.quirked();
    assert_eq!(quirked_text, expected_string);
}

#[test]
fn lowercase_speaker_among_other_lines() {
    let cs = characters_of("ARADIA: Lorem ipsum dolar somet.\nNOTRADIA: Nothing to see here.");
    assert_eq!(
        cs.quirked(),
        "AA: lorem ipsum dolar somet.\nNOTRADIA: Nothing to see here."
    );
}

#[test]
fn can_join_memo() {
    let string = "ARADIA! join";
    let expected_string = r#"```
-- apocalypseArisen [AA] has joined the memo! --
```"#;

    let cs = characters_of(string);
    let quirked_text = cs.quirked();
    assert_eq!(quirked_text, expected_string);
}

#[test]
fn can_leave_memo() {
    let string = "ARADIA! leave";
    let expected_string = r#"```
-- apocalypseArisen [AA] has left the memo! --
```"#;

    let cs = characters_of(string);
    let quirked_text = cs.quirked();
    assert_eq!(quirked_text, expected_string);
}

#[test]
fn can_go_online() {
    let string = "ARADIA! online";
    let expected_string = r#"```
-- apocalypseArisen [AA] is now online! --
```"#;

    let cs = characters_of(string);
    let quirked_text = cs.quirked();
    assert_eq!(quirked_text, expected_string);
}

#[test]
fn can_go_offline() {
    let string = "ARADIA! offline";
    let expected_string = r#"```
-- apocalypseArisen [AA] is now offline! --
```"#;

    let cs = characters_of(string);
    let quirked_text = cs.quirked();
    assert_eq!(quirked_text, expected_string);
}

#[test]
fn can_go_idle() {
    let string = "ARADIA! idle";
    let expected_string = r#"```
-- apocalypseArisen [AA] is now idle! --
```"#;

    let cs = characters_of(string);
    let quirked_text = cs.quirked();
    assert_eq!(quirked_text, expected_string);
}

#[test]
fn can_go_unidle() {
    let string = "ARADIA! unidle";
    let expected_string = r#"```
-- apocalypseArisen [AA] is no longer idle! --
```"#;

    let cs = characters_of(string);
    let quirked_text = cs.quirked();
    assert_eq!(quirked_text, expected_string);
}

#[test]
fn can_block() {
    let string = "ARADIA! block ectoBiologist";
    let expected_string = r#"```
-- apocalypseArisen [AA] has blocked ectoBiologist [EB]! --
```"#;

    let cs = characters_of(string);
    let quirked_text = cs.quirked();
    assert_eq!(quirked_text, expected_string);
}

#[test]
fn can_unblock() {
    let string = "ARADIA! unblock ectoBiologist";
    let expected_string = r#"```
-- apocalypseArisen [AA] has unblocked ectoBiologist [EB]! --
```"#;

    let cs = characters_of(string);
    let quirked_text = cs.quirked();
    assert_eq!(quirked_text, expected_string);
}

#[test]
fn can_upload() {
    let string = "ARADIA! upload test.png";
    let expected_string = r#"```
-- apocalypseArisen [AA] has uploaded "test.png" --
```"#;

    let cs = characters_of(string);
    let quirked_text = cs.quirked();
    assert_eq!(quirked_text, expected_string);
}

#[test]
fn can_kick() {
    let string = "ARADIA! kick ectoBiologist";
    let expected_string = r#"```
-- apocalypseArisen [AA] has kicked ectoBiologist [EB] from the memo! --
```"#;

    let cs = characters_of(string);
    let quirked_text = cs.quirked();
    assert_eq!(quirked_text, expected_string);
}

#[test]
fn can_ban() {
    let string = "ARADIA! ban ectoBiologist";
    let expected_string = r#"```
-- apocalypseArisen [AA] has banned ectoBiologist [EB] from the memo! --
```"#;

    let cs = characters_of(string);
    let quirked_text = cs.quirked();
    assert_eq!(quirked_text, expected_string);
}

#[test]
fn can_unban() {
    let string = "ARADIA! unban ectoBiologist";
    let expected_string = r#"```
-- apocalypseArisen [AA] has unbanned ectoBiologist [EB] from the memo! --
```"#;

    let cs = characters_of(string);
    let quirked_text = cs.quirked();
    assert_eq!(quirked_text, expected_string);
}

#[test]
fn can_troll() {
    let string = "ARADIA! troll ectoBiologist";
    let expected_string = r#"```
-- apocalypseArisen [AA] has begun trolling ectoBiologist [EB]! --
```"#;

    let cs = characters_of(string);
    let quirked_text = cs.quirked();
    assert_eq!(quirked_text, expected_string);
}

#[test]
fn missing_character_leaves_the_line() {
    let cs = characters_of("MISSING: hello");
    assert!(cs.characters.is_empty());
    assert_eq!(cs.quirked(), "MISSING: hello");
    let cs = characters_of("MISSING! join");
    assert_eq!(cs.quirked(), "MISSING! join");
}

#[test]
fn unknown_verb_leaves_the_line() {
    assert_eq!(characters_of("ARADIA! dance").quirked(), "ARADIA! dance");
    assert_eq!(characters_of("ARADIA! dance wildly").quirked(), "ARADIA! dance wildly");
    assert_eq!(characters_of("ARADIA! ").quirked(), "ARADIA! ");
    assert_eq!(characters_of("ARADIA! Join").quirked(), "ARADIA! Join");
}

#[test]
fn missing_argument_leaves_the_line() {
    for verb in ["block", "unblock", "kick", "ban", "unban", "troll", "upload"] {
        let line = format!("ARADIA! {}", verb);
        assert_eq!(characters_of(&line).quirked(), line);
    }
    for verb in ["block", "unblock", "kick", "ban", "unban", "troll"] {
        let line = format!("ARADIA! {} ", verb);
        assert_eq!(characters_of(&line).quirked(), line);
        let line = format!("ARADIA! {}  someone", verb);
        assert_eq!(characters_of(&line).quirked(), line);
    }
    assert_eq!(
        characters_of("ARADIA! upload ").quirked(),
        "```\n-- apocalypseArisen [AA] has uploaded \"\" --\n```"
    );
}

#[test]
fn further_arguments_are_not_read() {
    assert_eq!(
        characters_of("ARADIA! block ectoBiologist now please").quirked(),
        "```\n-- apocalypseArisen [AA] has blocked ectoBiologist [EB]! --\n```"
    );
    assert_eq!(
        characters_of("ARADIA! join us").quirked(),
        "```\n-- apocalypseArisen [AA] has joined the memo! --\n```"
    );
}

#[test]
fn made_up_label_takes_first_and_upper_case_characters() {
    let c = aradia();
    assert_eq!(
        c.block("ectoBiologist"),
        "```\n-- apocalypseArisen [AA] has blocked ectoBiologist [EB]! --\n```"
    );
    assert_eq!(
        c.troll("TentacleTherapist"),
        "```\n-- apocalypseArisen [AA] has begun trolling TentacleTherapist [TTT]! --\n```"
    );
    assert_eq!(
        c.kick("x"),
        "```\n-- apocalypseArisen [AA] has kicked x [X] from the memo! --\n```"
    );
    assert_eq!(
        quirk::ban(&c, "ßigMan"),
        "```\n-- apocalypseArisen [AA] has banned ßigMan [SSM] from the memo! --\n```"
    );
    assert_eq!(
        quirk::unban(&c, "a1B"),
        "```\n-- apocalypseArisen [AA] has unbanned a1B [AB] from the memo! --\n```"
    );
    assert_eq!(
        quirk::unblock(&c, "q"),
        "```\n-- apocalypseArisen [AA] has unblocked q [Q]! --\n```"
    );
}

#[test]
fn announcements_of_a_character() {
    let c = aradia();
    assert_eq!(c.online(), "```\n-- apocalypseArisen [AA] is now online! --\n```");
    assert_eq!(quirk::online(&c), c.online());
    assert_eq!(c.offline(), "```\n-- apocalypseArisen [AA] is now offline! --\n```");
    assert_eq!(quirk::offline(&c), c.offline());
    assert_eq!(c.idle(), "```\n-- apocalypseArisen [AA] is now idle! --\n```");
    assert_eq!(quirk::idle(&c), c.idle());
    assert_eq!(c.unidle(), "```\n-- apocalypseArisen [AA] is no longer idle! --\n```");
    assert_eq!(quirk::unidle(&c), c.unidle());
    assert_eq!(c.join(), "```\n-- apocalypseArisen [AA] has joined the memo! --\n```");
    assert_eq!(quirk::join(&c), c.join());
    assert_eq!(c.leave(), "```\n-- apocalypseArisen [AA] has left the memo! --\n```");
    assert_eq!(quirk::leave(&c), c.leave());
    assert_eq!(
        c.upload("a b.png"),
        "```\n-- apocalypseArisen [AA] has uploaded \"a b.png\" --\n```"
    );
    assert_eq!(quirk::upload(&c, "a b.png"), c.upload("a b.png"));
    assert_eq!(quirk::block(&c, "ab"), c.block("ab"));
    assert_eq!(quirk::unblock(&c, "ab"), c.unblock("ab"));
    assert_eq!(quirk::kick(&c, "ab"), c.kick("ab"));
    assert_eq!(quirk::ban(&c, "ab"), c.ban("ab"));
    assert_eq!(quirk::unban(&c, "ab"), c.unban("ab"));
    assert_eq!(quirk::troll(&c, "ab"), c.troll("ab"));
    assert_eq!(quirk::quirked("Hi", &c), "AA: hi");
    assert_eq!(c.quirked("Hi"), "AA: hi");
}

#[test]
fn command_of_a_character() {
    let c = aradia();
    assert_eq!(c.command("join", &None), Some(c.join()));
    assert_eq!(c.command("join", &Some("x".to_string())), Some(c.join()));
    assert_eq!(c.command("block", &None), None);
    assert_eq!(c.command("block", &Some(String::new())), None);
    assert_eq!(c.command("block", &Some("x".to_string())), Some(c.block("x")));
    assert_eq!(c.command("upload", &Some(String::new())), Some(c.upload("")));
    assert_eq!(c.command("upload", &None), None);
    assert_eq!(c.command("", &Some("x".to_string())), None);
    assert_eq!(c.command("wave", &Some("x".to_string())), None);
}

#[test]
fn lines_are_told_apart() {
    assert_eq!(
        quirk::classify("ARADIA: hello there"),
        Line::Speech { name: "ARADIA".to_string(), body: "hello there".to_string() }
    );
    assert_eq!(
        quirk::classify("a: "),
        Line::Speech { name: "a".to_string(), body: String::new() }
    );
    assert_eq!(
        quirk::classify("ARADIA! block someone now"),
        Line::Command {
            name: "ARADIA".to_string(),
            verb: "block".to_string(),
            argument: Some("someone".to_string())
        }
    );
    assert_eq!(
        quirk::classify("ARADIA! join"),
        Line::Command { name: "ARADIA".to_string(), verb: "join".to_string(), argument: None }
    );
    assert_eq!(
        quirk::classify("ARADIA! "),
        Line::Command { name: "ARADIA".to_string(), verb: String::new(), argument: None }
    );
    for plain in [
        "",
        ": hello",
        "! join",
        "ARADIA:hello",
        "ARADIA :hello",
        " ARADIA: hello",
        "ARADIA1: hello",
        "ARÄDIA: hello",
        "ARADIA:",
        "ARADIA!",
        "ARADIA",
        "ARADIA? what",
        "two words: hello",
    ] {
        assert_eq!(quirk::classify(plain), Line::Plain(plain.to_string()));
    }
}

#[test]
fn names_are_listed_once_in_order() {
    let text = "B: x\nA! join\nplain\nB! leave\nC:no\nA: y\n: z\nD: w";
    assert_eq!(quirk::referenced_names(text), vec!["B", "A", "D"]);
    assert!(quirk::referenced_names("").is_empty());
    assert!(quirk::referenced_names("nothing here\nat all").is_empty());
    assert_eq!(quirk::referenced_names("x ARADIA: hi\nNOTRADIA: hi"), vec!["NOTRADIA"]);
}

#[test]
fn first_rule_for_a_name_wins() {
    let first = Character {
        handle: "first".to_string(),
        acronym: "F".to_string(),
        quirks: Vec::new(),
    };
    let second = Character {
        handle: "second".to_string(),
        acronym: "S".to_string(),
        quirks: Vec::new(),
    };
    let other = Character {
        handle: "other".to_string(),
        acronym: "O".to_string(),
        quirks: Vec::new(),
    };
    let unnamed = Character {
        handle: "unnamed".to_string(),
        acronym: "U".to_string(),
        quirks: Vec::new(),
    };
    let rules = vec![
        ("X".to_string(), unnamed),
        ("A".to_string(), first),
        ("B".to_string(), other),
        ("A".to_string(), second),
    ];
    let cs = Characters::from_string("A: one\nB! join\nA: two\nx: three", rules);
    assert_eq!(cs.string, "A: one\nB! join\nA: two\nx: three");
    let names: Vec<&str> = cs.characters.iter().map(|e| e.0.as_str()).collect();
    assert_eq!(names, vec!["A", "B"]);
    assert_eq!(cs.characters[0].1.handle, "first");
    assert_eq!(
        cs.quirked(),
        "F: one\n```\n-- other [O] has joined the memo! --\n```\nF: two\nx: three"
    );
}

#[test]
fn command_first_then_speech() {
    let cs = characters_of("ARADIA! join\nARADIA: HELLO\nsomeone else");
    assert_eq!(cs.characters.len(), 1);
    assert_eq!(
        cs.quirked(),
        "```\n-- apocalypseArisen [AA] has joined the memo! --\n```\nAA: hello\nsomeone else"
    );
}

#[test]
fn only_the_prefix_is_taken_off() {
    let cs = characters_of("ARADIA: SAY ARADIA: TWICE");
    assert_eq!(cs.quirked(), "AA: say aradia: twice");
}

#[test]
fn text_without_characters_stays() {
    for text in ["", "\n", "a\n\nb\n", "  spaces  \n\t", "NOBODY: home\nNOBODY! join\n"] {
        assert_eq!(characters_of(text).quirked(), text);
    }
    assert_eq!(characters_of("ARADIA: A \n").quirked(), "AA: a \n");
}

#[test]
fn characters_that_are_not_ready() {
    let broken = Character {
        handle: "broken".to_string(),
        acronym: "B".to_string(),
        quirks: vec![quirk::Quirk::RegexReplacements(vec![("(".to_string(), "".to_string())])],
    };
    let cs = Characters::from_string("B: hi", vec![("B".to_string(), broken)]);
    assert!(!cs.is_ready());
    assert_eq!(cs.try_quirked(), None);
    let cs = characters_of("ARADIA: HI");
    assert!(cs.is_ready());
    assert_eq!(cs.try_quirked(), Some("AA: hi".to_string()));
}

#[test]
fn speaker_without_quirks_is_only_relabelled() {
    let plain = Character {
        handle: "plainSpeaker".to_string(),
        acronym: "PS".to_string(),
        quirks: Vec::new(),
    };
    let text = "Plain: Exactly As Typed,  with  spaces. ";
    let cs = Characters::from_string(text, vec![("Plain".to_string(), plain)]);
    assert_eq!(cs.quirked(), "PS: Exactly As Typed,  with  spaces. ");
}
