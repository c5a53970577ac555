//! Rule files: the JSON document that describes one character.
//!
//! A rule file is an object with the members `handle` and `acronym`, both
//! strings, and `quirks`, an array of objects. Each of those objects stands
//! for one operation: its first member names the operation and holds what the
//! operation works with. Further members of it are not read. Comments are
//! allowed anywhere and are stripped before the document is parsed.
//!
//! An operation of a name that is not known is kept as one that does nothing,
//! and so is a style of a name that is not known. A known operation with a
//! value of the wrong shape makes the whole file invalid.

use vstd::prelude::*;
use crate::json::{
    json_document, lemma_array_view, lemma_object_view, parse_document, Json, JsonView, Member,
    MemberView,
};
use crate::jsonc::{strip_jsonc_comments, stripped};
use crate::quirk::{
    choices_view, pairs_view, quirks_view, Character, CharacterView, Quirk, QuirkView,
};
use crate::style::Style;
use crate::text::{same_text, texts};
use vstd::string::StringExecFns;

verus! {

/// The views of a sequence of JSON values.
pub open spec fn views(items: Seq<Json>) -> Seq<JsonView> {
    items.map_values(|j: Json| j@)
}

/// The views of a sequence of members.
pub open spec fn member_views(members: Seq<Member>) -> Seq<MemberView> {
    members.map_values(|m: Member| MemberView { key: m.key@, value: m.value@ })
}

/// The text of a JSON string.
pub open spec fn text_of(j: JsonView) -> Option<Seq<char>> {
    match j {
        JsonView::Text(t) => Some(t),
        _ => None,
    }
}

/// The items of a JSON array.
pub open spec fn items_of(j: JsonView) -> Option<Seq<JsonView>> {
    match j {
        JsonView::Array(items) => Some(items),
        _ => None,
    }
}

/// The value of the first member with this key.
pub open spec fn member(members: Seq<MemberView>, key: Seq<char>) -> Option<JsonView>
    decreases members.len(),
{
    if members.len() == 0 {
        None
    } else {
        match member(members.drop_last(), key) {
            Some(value) => Some(value),
            None => if members.last().key == key {
                Some(members.last().value)
            } else {
                None
            },
        }
    }
}

/// Every item is a string.
pub open spec fn all_texts(items: Seq<JsonView>) -> bool {
    forall|i: int| 0 <= i < items.len() ==> text_of(#[trigger] items[i]) is Some
}

/// The texts of the items, where every item is a string.
pub open spec fn decoded_texts(items: Seq<JsonView>) -> Option<Seq<Seq<char>>> {
    if all_texts(items) {
        Some(items.map_values(|j: JsonView| text_of(j)->0))
    } else {
        None
    }
}

/// The two texts of a pair: an array that begins with two strings.
pub open spec fn decoded_pair(j: JsonView) -> Option<(Seq<char>, Seq<char>)> {
    match j {
        JsonView::Array(items) => if items.len() >= 2 && text_of(items[0]) is Some && text_of(
            items[1],
        ) is Some {
            Some((text_of(items[0])->0, text_of(items[1])->0))
        } else {
            None
        },
        _ => None,
    }
}

/// Every item is a pair.
pub open spec fn all_pairs(items: Seq<JsonView>) -> bool {
    forall|i: int| 0 <= i < items.len() ==> decoded_pair(#[trigger] items[i]) is Some
}

/// The pairs of the items, where every item is a pair.
pub open spec fn decoded_pairs(items: Seq<JsonView>) -> Option<Seq<(Seq<char>, Seq<char>)>> {
    if all_pairs(items) {
        Some(items.map_values(|j: JsonView| decoded_pair(j)->0))
    } else {
        None
    }
}

/// A literal with its choices: an array that begins with a string and an
/// array of strings.
pub open spec fn decoded_choice(j: JsonView) -> Option<(Seq<char>, Seq<Seq<char>>)> {
    match j {
        JsonView::Array(items) => if items.len() >= 2 && text_of(items[0]) is Some && items_of(
            items[1],
        ) is Some && decoded_texts(items_of(items[1])->0) is Some {
            Some((text_of(items[0])->0, decoded_texts(items_of(items[1])->0)->0))
        } else {
            None
        },
        _ => None,
    }
}

/// Every item is a literal with its choices.
pub open spec fn all_choices(items: Seq<JsonView>) -> bool {
    forall|i: int| 0 <= i < items.len() ==> decoded_choice(#[trigger] items[i]) is Some
}

/// The literals of the items with their choices, where every item is one
/// with its choices.
pub open spec fn decoded_choices(items: Seq<JsonView>) -> Option<
    Seq<(Seq<char>, Seq<Seq<char>>)>,
> {
    if all_choices(items) {
        Some(items.map_values(|j: JsonView| decoded_choice(j)->0))
    } else {
        None
    }
}

/// The style of a name, where the name is that of a style.
pub open spec fn decoded_style(name: Seq<char>) -> Option<Style> {
    if name == "lowercase"@ {
        Some(Style::Lowercase)
    } else if name == "uppercase"@ {
        Some(Style::Uppercase)
    } else if name == "alternating"@ {
        Some(Style::Alternating)
    } else if name == "camelcase"@ {
        Some(Style::Camelcase)
    } else if name == "reverse"@ {
        Some(Style::Reverse)
    } else if name == "inverted"@ {
        Some(Style::Inverted)
    } else {
        None
    }
}

/// The pairs that a value holds: it is an array, and every item a pair.
pub open spec fn pairs_in(value: JsonView) -> Option<Seq<(Seq<char>, Seq<char>)>> {
    match value {
        JsonView::Array(items) => decoded_pairs(items),
        _ => None,
    }
}

/// The literals with their choices that a value holds.
pub open spec fn choices_in(value: JsonView) -> Option<Seq<(Seq<char>, Seq<Seq<char>>)>> {
    match value {
        JsonView::Array(items) => decoded_choices(items),
        _ => None,
    }
}

/// The operation of this name with this value. `None` where the name is
/// known and the value has not the shape that it asks for.
pub open spec fn decoded_operation(key: Seq<char>, value: JsonView) -> Option<QuirkView> {
    if key == "prefix"@ {
        match text_of(value) {
            Some(t) => Some(QuirkView::Prefix(t)),
            None => None,
        }
    } else if key == "suffix"@ {
        match text_of(value) {
            Some(t) => Some(QuirkView::Suffix(t)),
            None => None,
        }
    } else if key == "simple_replacements"@ {
        match pairs_in(value) {
            Some(pairs) => Some(QuirkView::SimpleReplacements(pairs)),
            None => None,
        }
    } else if key == "random_replacements"@ {
        match choices_in(value) {
            Some(pairs) => Some(QuirkView::RandomReplacements(pairs)),
            None => None,
        }
    } else if key == "regex_replacements"@ {
        match pairs_in(value) {
            Some(pairs) => Some(QuirkView::RegexReplacements(pairs)),
            None => None,
        }
    } else if key == "scramble"@ {
        match pairs_in(value) {
            Some(pairs) => Some(QuirkView::Scramble(pairs)),
            None => None,
        }
    } else if key == "style"@ {
        match text_of(value) {
            Some(name) => match decoded_style(name) {
                Some(style) => Some(QuirkView::Style(style)),
                None => Some(QuirkView::Unknown),
            },
            None => None,
        }
    } else {
        Some(QuirkView::Unknown)
    }
}

/// The operation that a JSON value stands for: it is an object, and its
/// first member names the operation and holds its value.
pub open spec fn decoded_quirk(j: JsonView) -> Option<QuirkView> {
    match j {
        JsonView::Object(members) => if members.len() == 0 {
            None
        } else {
            decoded_operation(members[0].key, members[0].value)
        },
        _ => None,
    }
}

/// Every item stands for an operation.
pub open spec fn all_quirks(items: Seq<JsonView>) -> bool {
    forall|i: int| 0 <= i < items.len() ==> decoded_quirk(#[trigger] items[i]) is Some
}

/// The operations that the items stand for, where every item stands for one.
pub open spec fn decoded_quirks(items: Seq<JsonView>) -> Option<Seq<QuirkView>> {
    if all_quirks(items) {
        Some(items.map_values(|j: JsonView| decoded_quirk(j)->0))
    } else {
        None
    }
}

/// The operations that a value holds: it is an array, and every item stands
/// for an operation.
pub open spec fn quirks_in(value: JsonView) -> Option<Seq<QuirkView>> {
    match value {
        JsonView::Array(items) => decoded_quirks(items),
        _ => None,
    }
}

/// The text of the member with this key, where there is one and it is a string.
pub open spec fn text_member(members: Seq<MemberView>, key: Seq<char>) -> Option<Seq<char>> {
    match member(members, key) {
        Some(value) => text_of(value),
        None => None,
    }
}

/// The operations of the member with this key.
pub open spec fn quirks_member(members: Seq<MemberView>, key: Seq<char>) -> Option<
    Seq<QuirkView>,
> {
    match member(members, key) {
        Some(value) => quirks_in(value),
        None => None,
    }
}

/// The character that a JSON value describes.
pub open spec fn decoded_character(j: JsonView) -> Option<CharacterView> {
    match j {
        JsonView::Object(members) => if text_member(members, "handle"@) is Some && text_member(
            members,
            "acronym"@,
        ) is Some && quirks_member(members, "quirks"@) is Some {
            Some(
                CharacterView {
                    handle: text_member(members, "handle"@)->0,
                    acronym: text_member(members, "acronym"@)->0,
                    quirks: quirks_member(members, "quirks"@)->0,
                },
            )
        } else {
            None
        },
        _ => None,
    }
}

/// The character that a rule file describes: its comments are stripped, what
/// is left is read as JSON, and the JSON as a character.
pub open spec fn rule_record(text: Seq<char>) -> Option<CharacterView> {
    match json_document(stripped(text, true)) {
        Some(j) => decoded_character(j),
        None => None,
    }
}

/// Once a key is found among the first members, later members do not matter.
proof fn lemma_member_first_wins(members: Seq<MemberView>, n: int, key: Seq<char>)
    requires
        0 <= n <= members.len(),
        member(members.take(n), key) is Some,
    ensures
        member(members, key) == member(members.take(n), key),
    decreases members.len() - n,
{
    if n < members.len() {
        assert(members.take(n + 1).drop_last() =~= members.take(n));
        lemma_member_first_wins(members, n + 1, key);
    } else {
        assert(members.take(n) =~= members);
    }
}

/// The items of an array, seen through `views`.
proof fn lemma_array_items(items: Vec<Json>)
    ensures
        Json::Array(items)@ == JsonView::Array(views(items@)),
{
    lemma_array_view(items);
    assert(Json::Array(items)@->Array_0 =~= views(items@));
}

/// The members of an object, seen through `member_views`.
proof fn lemma_object_members(members: Vec<Member>)
    ensures
        Json::Object(members)@ == JsonView::Object(member_views(members@)),
{
    lemma_object_view(members);
    assert(Json::Object(members)@->Object_0 =~= member_views(members@));
}

/// The value of the first member with this key.
fn find_member<'a>(members: &'a Vec<Member>, key: &str) -> (r: Option<&'a Json>)
    ensures
        match r {
            Some(value) => member(member_views(members@), key@) == Some(value@),
            None => member(member_views(members@), key@) is None,
        },
{
    let mut i: usize = 0;
    while i < members.len()
        invariant
            i <= members.len(),
            member(member_views(members@).take(i as int), key@) is None,
        decreases members.len() - i,
    {
        proof {
            let seen = member_views(members@).take(i + 1);
            assert(seen.drop_last() =~= member_views(members@).take(i as int));
            assert(seen.last() == (MemberView {
                key: members@[i as int].key@,
                value: members@[i as int].value@,
            }));
        }
        if same_text(members[i].key.as_str(), key) {
            proof {
                lemma_member_first_wins(member_views(members@), i + 1, key@);
            }
            return Some(&members[i].value);
        }
        i = i + 1;
    }
    proof {
        assert(member_views(members@).take(members@.len() as int) =~= member_views(members@));
    }
    None
}

/// Reads a JSON string.
fn decode_text(j: &Json) -> (r: Option<String>)
    ensures
        match r {
            Some(t) => text_of(j@) == Some(t@),
            None => text_of(j@) is None,
        },
{
    match j {
        Json::Text(t) => Some(t.clone()),
        _ => None,
    }
}

/// Reads a list of strings.
fn decode_texts(items: &Vec<Json>) -> (r: Option<Vec<String>>)
    ensures
        match r {
            Some(v) => decoded_texts(views(items@)) == Some(texts(v@)),
            None => decoded_texts(views(items@)) is None,
        },
{
    let mut out: Vec<String> = Vec::new();
    let mut i: usize = 0;
    while i < items.len()
        invariant
            i <= items.len(),
            out@.len() == i,
            forall|j: int| 0 <= j < i ==> text_of(#[trigger] views(items@)[j]) == Some(out@[j]@),
        decreases items.len() - i,
    {
        match decode_text(&items[i]) {
            Some(t) => {
                out.push(t);
            },
            None => {
                proof {
                    assert(text_of(views(items@)[i as int]) is None);
                }
                return None;
            },
        }
        i = i + 1;
    }
    proof {
        assert(all_texts(views(items@)));
        assert(texts(out@) =~= views(items@).map_values(|j: JsonView| text_of(j)->0));
    }
    Some(out)
}

/// Reads a pair of strings.
fn decode_pair(j: &Json) -> (r: Option<(String, String)>)
    ensures
        match r {
            Some(p) => decoded_pair(j@) == Some((p.0@, p.1@)),
            None => decoded_pair(j@) is None,
        },
{
    match j {
        Json::Array(items) => {
            proof {
                lemma_array_items(*items);
            }
            if items.len() < 2 {
                return None;
            }
            proof {
                assert(views(items@)[0] == items@[0]@);
                assert(views(items@)[1] == items@[1]@);
            }
            match decode_text(&items[0]) {
                Some(a) => match decode_text(&items[1]) {
                    Some(b) => Some((a, b)),
                    None => None,
                },
                None => None,
            }
        },
        _ => None,
    }
}

/// Reads a list of pairs of strings.
fn decode_pairs(value: &Json) -> (r: Option<Vec<(String, String)>>)
    ensures
        match r {
            Some(v) => pairs_in(value@) == Some(pairs_view(v@)),
            None => pairs_in(value@) is None,
        },
{
    match value {
        Json::Array(items) => {
            proof {
                lemma_array_items(*items);
            }
            let mut out: Vec<(String, String)> = Vec::new();
            let mut i: usize = 0;
            while i < items.len()
                invariant
                    i <= items.len(),
                    out@.len() == i,
                    value@ == JsonView::Array(views(items@)),
                    forall|j: int|
                        0 <= j < i ==> decoded_pair(#[trigger] views(items@)[j]) == Some(
                            (out@[j].0@, out@[j].1@),
                        ),
                decreases items.len() - i,
            {
                match decode_pair(&items[i]) {
                    Some(p) => {
                        out.push(p);
                    },
                    None => {
                        proof {
                            assert(decoded_pair(views(items@)[i as int]) is None);
                        }
                        return None;
                    },
                }
                i = i + 1;
            }
            proof {
                assert(all_pairs(views(items@)));
                assert(pairs_view(out@) =~= views(items@).map_values(
                    |j: JsonView| decoded_pair(j)->0,
                ));
            }
            Some(out)
        },
        _ => None,
    }
}

/// Reads a literal with its choices.
fn decode_choice(j: &Json) -> (r: Option<(String, Vec<String>)>)
    ensures
        match r {
            Some(p) => decoded_choice(j@) == Some((p.0@, texts(p.1@))),
            None => decoded_choice(j@) is None,
        },
{
    match j {
        Json::Array(items) => {
            proof {
                lemma_array_items(*items);
            }
            if items.len() < 2 {
                return None;
            }
            proof {
                assert(views(items@)[0] == items@[0]@);
                assert(views(items@)[1] == items@[1]@);
            }
            match decode_text(&items[0]) {
                Some(from) => match &items[1] {
                    Json::Array(listed) => {
                        proof {
                            lemma_array_items(*listed);
                        }
                        match decode_texts(listed) {
                            Some(choices) => Some((from, choices)),
                            None => None,
                        }
                    },
                    _ => None,
                },
                None => None,
            }
        },
        _ => None,
    }
}

/// Reads a list of literals with their choices.
fn decode_choices(value: &Json) -> (r: Option<Vec<(String, Vec<String>)>>)
    ensures
        match r {
            Some(v) => choices_in(value@) == Some(choices_view(v@)),
            None => choices_in(value@) is None,
        },
{
    match value {
        Json::Array(items) => {
            proof {
                lemma_array_items(*items);
            }
            let mut out: Vec<(String, Vec<String>)> = Vec::new();
            let mut i: usize = 0;
            while i < items.len()
                invariant
                    i <= items.len(),
                    out@.len() == i,
                    value@ == JsonView::Array(views(items@)),
                    forall|j: int|
                        0 <= j < i ==> decoded_choice(#[trigger] views(items@)[j]) == Some(
                            (out@[j].0@, texts(out@[j].1@)),
                        ),
                decreases items.len() - i,
            {
                match decode_choice(&items[i]) {
                    Some(p) => {
                        out.push(p);
                    },
                    None => {
                        proof {
                            assert(decoded_choice(views(items@)[i as int]) is None);
                        }
                        return None;
                    },
                }
                i = i + 1;
            }
            proof {
                assert(all_choices(views(items@)));
                assert(choices_view(out@) =~= views(items@).map_values(
                    |j: JsonView| decoded_choice(j)->0,
                ));
            }
            Some(out)
        },
        _ => None,
    }
}

/// Reads the name of a style.
fn decode_style(name: &str) -> (r: Option<Style>)
    ensures
        r == decoded_style(name@),
{
    if same_text(name, "lowercase") {
        Some(Style::Lowercase)
    } else if same_text(name, "uppercase") {
        Some(Style::Uppercase)
    } else if same_text(name, "alternating") {
        Some(Style::Alternating)
    } else if same_text(name, "camelcase") {
        Some(Style::Camelcase)
    } else if same_text(name, "reverse") {
        Some(Style::Reverse)
    } else if same_text(name, "inverted") {
        Some(Style::Inverted)
    } else {
        None
    }
}

/// Reads the operation of this name with this value.
fn decode_operation(key: &str, value: &Json) -> (r: Option<Quirk>)
    ensures
        match r {
            Some(q) => decoded_operation(key@, value@) == Some(q@),
            None => decoded_operation(key@, value@) is None,
        },
{
    if same_text(key, "prefix") {
        match decode_text(value) {
            Some(t) => Some(Quirk::Prefix(t)),
            None => None,
        }
    } else if same_text(key, "suffix") {
        match decode_text(value) {
            Some(t) => Some(Quirk::Suffix(t)),
            None => None,
        }
    } else if same_text(key, "simple_replacements") {
        match decode_pairs(value) {
            Some(pairs) => Some(Quirk::SimpleReplacements(pairs)),
            None => None,
        }
    } else if same_text(key, "random_replacements") {
        match decode_choices(value) {
            Some(pairs) => Some(Quirk::RandomReplacements(pairs)),
            None => None,
        }
    } else if same_text(key, "regex_replacements") {
        match decode_pairs(value) {
            Some(pairs) => Some(Quirk::RegexReplacements(pairs)),
            None => None,
        }
    } else if same_text(key, "scramble") {
        match decode_pairs(value) {
            Some(pairs) => Some(Quirk::Scramble(pairs)),
            None => None,
        }
    } else if same_text(key, "style") {
        match decode_text(value) {
            Some(name) => match decode_style(name.as_str()) {
                Some(style) => Some(Quirk::Style(style)),
                None => Some(Quirk::Unknown),
            },
            None => None,
        }
    } else {
        Some(Quirk::Unknown)
    }
}

/// Reads one operation.
fn decode_quirk(j: &Json) -> (r: Option<Quirk>)
    ensures
        match r {
            Some(q) => decoded_quirk(j@) == Some(q@),
            None => decoded_quirk(j@) is None,
        },
{
    match j {
        Json::Object(members) => {
            proof {
                lemma_object_members(*members);
            }
            if members.len() == 0 {
                None
            } else {
                proof {
                    assert(member_views(members@)[0] == (MemberView {
                        key: members@[0].key@,
                        value: members@[0].value@,
                    }));
                }
                decode_operation(members[0].key.as_str(), &members[0].value)
            }
        },
        _ => None,
    }
}

/// Reads a list of operations.
fn decode_quirks(value: &Json) -> (r: Option<Vec<Quirk>>)
    ensures
        match r {
            Some(v) => quirks_in(value@) == Some(quirks_view(v@)),
            None => quirks_in(value@) is None,
        },
{
    match value {
        Json::Array(items) => {
            proof {
                lemma_array_items(*items);
            }
            let mut out: Vec<Quirk> = Vec::new();
            let mut i: usize = 0;
            while i < items.len()
                invariant
                    i <= items.len(),
                    out@.len() == i,
                    value@ == JsonView::Array(views(items@)),
                    forall|j: int|
                        0 <= j < i ==> decoded_quirk(#[trigger] views(items@)[j]) == Some(
                            out@[j]@,
                        ),
                decreases items.len() - i,
            {
                match decode_quirk(&items[i]) {
                    Some(q) => {
                        out.push(q);
                    },
                    None => {
                        proof {
                            assert(decoded_quirk(views(items@)[i as int]) is None);
                        }
                        return None;
                    },
                }
                i = i + 1;
            }
            proof {
                assert(all_quirks(views(items@)));
                assert(quirks_view(out@) =~= views(items@).map_values(
                    |j: JsonView| decoded_quirk(j)->0,
                ));
            }
            Some(out)
        },
        _ => None,
    }
}

/// Reads the character that a JSON value describes.
pub fn decode_character(j: &Json) -> (r: Option<Character>)
    ensures
        match r {
            Some(c) => decoded_character(j@) == Some(c@),
            None => decoded_character(j@) is None,
        },
{
    match j {
        Json::Object(members) => {
            proof {
                lemma_object_members(*members);
            }
            let handle = match find_member(members, "handle") {
                Some(value) => decode_text(value),
                None => None,
            };
            let acronym = match find_member(members, "acronym") {
                Some(value) => decode_text(value),
                None => None,
            };
            let quirks = match find_member(members, "quirks") {
                Some(value) => decode_quirks(value),
                None => None,
            };
            match handle {
                Some(handle) => match acronym {
                    Some(acronym) => match quirks {
                        Some(quirks) => Some(Character { handle, acronym, quirks }),
                        None => None,
                    },
                    None => None,
                },
                None => None,
            }
        },
        _ => None,
    }
}

/// Reads a rule file, where it is one.
fn read_rule(s: &str) -> (r: Option<Character>)
    ensures
        match r {
            Some(c) => rule_record(s@) == Some(c@),
            None => rule_record(s@) is None,
        },
{
    let plain = strip_jsonc_comments(s, true);
    match parse_document(plain.as_str()) {
        Some(j) => decode_character(&j),
        None => None,
    }
}

/// Tells whether the text is a rule file: JSON, comments allowed, that
/// describes a character.
pub fn is_rule_document(s: &str) -> (ok: bool)
    ensures
        ok == rule_record(s@) is Some,
{
    read_rule(s).is_some()
}

/// Reads the character that a rule file describes.
pub fn parse_safe(s: String) -> (c: Character)
    requires
        rule_record(s@) is Some,
    ensures
        rule_record(s@) == Some(c@),
{
    read_rule(s.as_str()).unwrap()
}

impl Character {
    /// Reads the character that a rule file describes; `None` where the text
    /// is not a rule file.
    pub fn from_document(s: &str) -> (r: Option<Character>)
        ensures
            match r {
                Some(c) => rule_record(s@) == Some(c@),
                None => rule_record(s@) is None,
            },
    {
        if is_rule_document(s) {
            Some(parse_safe(s.to_owned()))
        } else {
            None
        }
    }
}

/// Where the rule file of a name lies, below the directory that rule files
/// are looked for in: in `quirks`, under the name with `.json` behind it.
pub open spec fn rule_location(name: Seq<char>) -> Seq<char> {
    "./quirks/"@ + name + ".json"@
}

/// The place of the rule file of a name, below the directory that rule files
/// are looked for in.
pub fn rule_file_location(name: &str) -> (r: String)
    ensures
        r@ == rule_location(name@),
{
    let mut r = "./quirks/".to_owned();
    r.append(name);
    r.append(".json");
    r
}

} // verus!
