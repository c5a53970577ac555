//! The characters of one text: which lines are theirs, and what becomes of
//! those lines.
//!
//! A line that begins with a name, a colon and a space is something the
//! character of that name says. A line that begins with a name, an exclamation
//! mark and a space is something the character does. Every other line, and
//! every line of a name that is not registered, stays as it is.

use vstd::prelude::*;
use crate::quirk::{
    about_file, about_user, character_ready, framed, quirked_outcome, Character, CharacterView,
};
use crate::text::{
    chars_of, join_chars, join_with, rows, same_text, slice_chars, split_chars, split_on,
    string_of, texts,
};

verus! {

/// The character is a letter of the Latin alphabet, without accents.
pub open spec fn is_letter(c: char) -> bool {
    ('a' <= c && c <= 'z') || ('A' <= c && c <= 'Z')
}

/// How many letters stand in `line` from position `i` on, before anything else.
pub open spec fn letters_from(line: Seq<char>, i: int) -> nat
    decreases line.len() - i,
{
    if 0 <= i < line.len() && is_letter(line[i]) {
        1 + letters_from(line, i + 1)
    } else {
        0
    }
}

/// The name that `line` is addressed to with `mark`: the letters that the
/// line begins with, where there is at least one and the mark and a space
/// come next.
pub open spec fn addressed(line: Seq<char>, mark: char) -> Option<Seq<char>> {
    let n = letters_from(line, 0) as int;
    if n > 0 && n + 2 <= line.len() && line[n] == mark && line[n + 1] == ' ' {
        Some(line.take(n))
    } else {
        None
    }
}

/// The name of the character who says the line, where it is speech.
pub open spec fn speech_name(line: Seq<char>) -> Option<Seq<char>> {
    addressed(line, ':')
}

/// The name of the character who is told to do something, where the line is
/// a command.
pub open spec fn command_name(line: Seq<char>) -> Option<Seq<char>> {
    addressed(line, '!')
}

/// What a line is.
#[derive(Debug, PartialEq, Eq)]
pub enum Line {
    /// Something that a character says.
    Speech { name: String, body: String },
    /// Something that a character does: a verb and, where a space follows the
    /// verb, what stands between that space and the next.
    Command { name: String, verb: String, argument: Option<String> },
    /// Anything else.
    Plain(String),
}

/// What a line is, as plain texts.
pub enum LineView {
    Speech { name: Seq<char>, body: Seq<char> },
    Command { name: Seq<char>, verb: Seq<char>, argument: Option<Seq<char>> },
    Plain(Seq<char>),
}

impl View for Line {
    type V = LineView;

    open spec fn view(&self) -> LineView {
        match self {
            Line::Speech { name, body } => LineView::Speech { name: name@, body: body@ },
            Line::Command { name, verb, argument } => LineView::Command {
                name: name@,
                verb: verb@,
                argument: match argument {
                    Some(a) => Some(a@),
                    None => None,
                },
            },
            Line::Plain(text) => LineView::Plain(text@),
        }
    }
}

/// The verb and the argument of a command: the first and the second of the
/// pieces between spaces.
pub open spec fn command_of(name: Seq<char>, rest: Seq<char>) -> LineView {
    let parts = split_on(rest, ' ');
    LineView::Command {
        name,
        verb: parts[0],
        argument: if parts.len() > 1 {
            Some(parts[1])
        } else {
            None
        },
    }
}

/// What `line` is.
pub open spec fn classified(line: Seq<char>) -> LineView {
    match speech_name(line) {
        Some(name) => LineView::Speech { name, body: line.skip(name.len() as int + 2) },
        None => match command_name(line) {
            Some(name) => command_of(name, line.skip(name.len() as int + 2)),
            None => LineView::Plain(line),
        },
    }
}

/// The name that a line is addressed to, as speech or as a command.
pub open spec fn line_name(line: Seq<char>) -> Option<Seq<char>> {
    match speech_name(line) {
        Some(name) => Some(name),
        None => command_name(line),
    }
}

/// The names that the lines are addressed to, each once, in the order in
/// which they first come.
pub open spec fn mentioned_in(lines: Seq<Seq<char>>) -> Seq<Seq<char>>
    decreases lines.len(),
{
    if lines.len() == 0 {
        Seq::<Seq<char>>::empty()
    } else {
        let before = mentioned_in(lines.drop_last());
        match line_name(lines.last()) {
            Some(name) => if before.contains(name) {
                before
            } else {
                before.push(name)
            },
            None => before,
        }
    }
}

/// The names that the lines of `text` are addressed to, each once, in the
/// order in which they first come.
pub open spec fn mentioned(text: Seq<char>) -> Seq<Seq<char>> {
    mentioned_in(split_on(text, '\n'))
}

/// The names and characters of a list of entries, as plain texts.
pub open spec fn entries_view(v: Seq<(String, Character)>) -> Seq<(Seq<char>, CharacterView)> {
    v.map_values(|e: (String, Character)| (e.0@, e.1@))
}

/// The character that the entries have for `name`: that of the first entry
/// with that name.
pub open spec fn lookup(entries: Seq<(Seq<char>, CharacterView)>, name: Seq<char>) -> Option<
    CharacterView,
>
    decreases entries.len(),
{
    if entries.len() == 0 {
        None
    } else {
        match lookup(entries.drop_last(), name) {
            Some(c) => Some(c),
            None => if entries.last().0 == name {
                Some(entries.last().1)
            } else {
                None
            },
        }
    }
}

/// No name stands in two entries.
pub open spec fn names_differ(entries: Seq<(Seq<char>, CharacterView)>) -> bool {
    forall|i: int, j: int|
        0 <= i < j < entries.len() ==> (#[trigger] entries[i]).0 != (#[trigger] entries[j]).0
}

/// Every character of the entries can apply its quirks.
pub open spec fn entries_ready(entries: Seq<(Seq<char>, CharacterView)>) -> bool {
    forall|i: int| 0 <= i < entries.len() ==> character_ready((#[trigger] entries[i]).1)
}

/// What the character announces on a command, where the verb is known and
/// the argument it needs is there. The verbs `block`, `unblock`, `kick`,
/// `ban`, `unban` and `troll` need an argument that is not empty.
pub open spec fn command_output(
    c: CharacterView,
    verb: Seq<char>,
    argument: Option<Seq<char>>,
) -> Option<Seq<char>> {
    if verb == "offline"@ {
        Some(framed(c, "is now offline!"@))
    } else if verb == "online"@ {
        Some(framed(c, "is now online!"@))
    } else if verb == "idle"@ {
        Some(framed(c, "is now idle!"@))
    } else if verb == "unidle"@ {
        Some(framed(c, "is no longer idle!"@))
    } else if verb == "join"@ {
        Some(framed(c, "has joined the memo!"@))
    } else if verb == "leave"@ {
        Some(framed(c, "has left the memo!"@))
    } else {
        match argument {
            None => None,
            Some(arg) => if verb == "upload"@ {
                Some(framed(c, about_file(arg)))
            } else if arg.len() == 0 {
                None
            } else if verb == "block"@ {
                Some(framed(c, about_user("has blocked"@, arg, "!"@)))
            } else if verb == "unblock"@ {
                Some(framed(c, about_user("has unblocked"@, arg, "!"@)))
            } else if verb == "ban"@ {
                Some(framed(c, about_user("has banned"@, arg, " from the memo!"@)))
            } else if verb == "unban"@ {
                Some(framed(c, about_user("has unbanned"@, arg, " from the memo!"@)))
            } else if verb == "kick"@ {
                Some(framed(c, about_user("has kicked"@, arg, " from the memo!"@)))
            } else if verb == "troll"@ {
                Some(framed(c, about_user("has begun trolling"@, arg, "!"@)))
            } else {
                None
            },
        }
    }
}

/// `out` is what the line can become, with these entries.
pub open spec fn routed(
    entries: Seq<(Seq<char>, CharacterView)>,
    line: Seq<char>,
    out: Seq<char>,
) -> bool {
    match classified(line) {
        LineView::Speech { name, body } => match lookup(entries, name) {
            Some(c) => quirked_outcome(body, c, out),
            None => out == line,
        },
        LineView::Command { name, verb, argument } => match lookup(entries, name) {
            Some(c) => match command_output(c, verb, argument) {
                Some(announced) => out == announced,
                None => out == line,
            },
            None => out == line,
        },
        LineView::Plain(_) => out == line,
    }
}

/// There is one of `outs` for each of `lines`, and it is what that line can
/// become.
pub open spec fn all_routed(
    entries: Seq<(Seq<char>, CharacterView)>,
    lines: Seq<Seq<char>>,
    outs: Seq<Seq<char>>,
) -> bool {
    outs.len() == lines.len() && forall|i: int|
        0 <= i < lines.len() ==> routed(entries, lines[i], #[trigger] outs[i])
}

/// `r` is what `text` can become, with these entries: line by line, and the
/// lines joined by line feeds as they were.
pub open spec fn text_outcome(
    entries: Seq<(Seq<char>, CharacterView)>,
    text: Seq<char>,
    r: Seq<char>,
) -> bool {
    exists|outs: Seq<Seq<char>>| #[trigger]
        all_routed(entries, split_on(text, '\n'), outs) && r == join_with(outs, '\n')
}

/// Once a name is found among the first entries, later entries do not matter.
pub proof fn lemma_lookup_first_wins(
    entries: Seq<(Seq<char>, CharacterView)>,
    n: int,
    name: Seq<char>,
)
    requires
        0 <= n <= entries.len(),
        lookup(entries.take(n), name) is Some,
    ensures
        lookup(entries, name) == lookup(entries.take(n), name),
    decreases entries.len() - n,
{
    if n < entries.len() {
        assert(entries.take(n + 1).drop_last() =~= entries.take(n));
        lemma_lookup_first_wins(entries, n + 1, name);
    } else {
        assert(entries.take(n) =~= entries);
    }
}

/// A name that is found stands in an entry, and a name in an entry is found.
pub proof fn lemma_lookup_found(entries: Seq<(Seq<char>, CharacterView)>, name: Seq<char>)
    ensures
        lookup(entries, name) is Some <==> exists|i: int|
            0 <= i < entries.len() && (#[trigger] entries[i]).0 == name,
        lookup(entries, name) is Some ==> exists|i: int|
            0 <= i < entries.len() && (#[trigger] entries[i]) == (name, lookup(entries, name)->0),
    decreases entries.len(),
{
    if entries.len() > 0 {
        let init = entries.drop_last();
        lemma_lookup_found(init, name);
        if lookup(init, name) is Some {
            let i = choose|i: int|
                0 <= i < init.len() && (#[trigger] init[i]) == (name, lookup(init, name)->0);
            assert(entries[i] == init[i]);
        } else if entries.last().0 == name {
            assert(entries[entries.len() - 1].0 == name);
        } else {
            if exists|i: int| 0 <= i < entries.len() && (#[trigger] entries[i]).0 == name {
                let i = choose|i: int| 0 <= i < entries.len() && (#[trigger] entries[i]).0 == name;
                assert(init[i].0 == name);
            }
        }
    }
}

/// The letters that the line begins with, counted.
fn count_letters(line: &Vec<char>) -> (n: usize)
    ensures
        n == letters_from(line@, 0),
        n <= line.len(),
{
    let mut i: usize = 0;
    while i < line.len() && is_letter_exec(line[i])
        invariant
            i <= line.len(),
            i + letters_from(line@, i as int) == letters_from(line@, 0),
        decreases line.len() - i,
    {
        i = i + 1;
    }
    i
}

/// Tells whether the character is a letter of the Latin alphabet.
fn is_letter_exec(c: char) -> (r: bool)
    ensures
        r == is_letter(c),
{
    ('a' <= c && c <= 'z') || ('A' <= c && c <= 'Z')
}

/// The length of the name that the line is addressed to with `mark`, where
/// it is addressed so.
fn addressed_len(line: &Vec<char>, mark: char) -> (r: Option<usize>)
    ensures
        match r {
            Some(n) => n + 2 <= line.len() && addressed(line@, mark) == Some(line@.take(n as int)),
            None => addressed(line@, mark) is None,
        },
{
    let n = count_letters(line);
    if n > 0 && line.len() - n >= 2 && line[n] == mark && line[n + 1] == ' ' {
        Some(n)
    } else {
        None
    }
}

/// Tells what a line is: speech, a command or neither.
pub fn classify(line: &str) -> (r: Line)
    ensures
        r@ == classified(line@),
{
    let chars = chars_of(line);
    match addressed_len(&chars, ':') {
        Some(n) => {
            let name = slice_chars(&chars, 0, n);
            let body = slice_chars(&chars, n + 2, chars.len());
            proof {
                assert(chars@.subrange(0, n as int) =~= chars@.take(n as int));
                assert(chars@.subrange(n + 2, chars@.len() as int) =~= chars@.skip(n + 2));
            }
            Line::Speech { name: string_of(&name), body: string_of(&body) }
        },
        None => match addressed_len(&chars, '!') {
            Some(n) => {
                let name = slice_chars(&chars, 0, n);
                let rest = slice_chars(&chars, n + 2, chars.len());
                proof {
                    assert(chars@.subrange(0, n as int) =~= chars@.take(n as int));
                    assert(chars@.subrange(n + 2, chars@.len() as int) =~= chars@.skip(n + 2));
                }
                let parts = split_chars(&rest, ' ');
                let verb = string_of(&parts[0]);
                let argument = if parts.len() > 1 {
                    Some(string_of(&parts[1]))
                } else {
                    None
                };
                proof {
                    assert(rows(parts@)[0] == parts@[0]@);
                    if parts@.len() > 1 {
                        assert(rows(parts@)[1] == parts@[1]@);
                    }
                }
                Line::Command { name: string_of(&name), verb, argument }
            },
            None => Line::Plain(line.to_owned()),
        },
    }
}

impl Character {
    /// What the character announces on a command: `None` where the verb is
    /// not known or the argument it needs is not there.
    pub fn command(&self, verb: &str, argument: &Option<String>) -> (r: Option<String>)
        ensures
            match r {
                Some(announced) => command_output(
                    self@,
                    verb@,
                    match argument {
                        Some(a) => Some(a@),
                        None => None,
                    },
                ) == Some(announced@),
                None => command_output(
                    self@,
                    verb@,
                    match argument {
                        Some(a) => Some(a@),
                        None => None,
                    },
                ) is None,
            },
    {
        if same_text(verb, "offline") {
            Some(self.offline())
        } else if same_text(verb, "online") {
            Some(self.online())
        } else if same_text(verb, "idle") {
            Some(self.idle())
        } else if same_text(verb, "unidle") {
            Some(self.unidle())
        } else if same_text(verb, "join") {
            Some(self.join())
        } else if same_text(verb, "leave") {
            Some(self.leave())
        } else {
            match argument {
                None => None,
                Some(arg) => {
                    if same_text(verb, "upload") {
                        Some(self.upload(arg.as_str()))
                    } else if arg.as_str().unicode_len() == 0 {
                        None
                    } else if same_text(verb, "block") {
                        Some(self.block(arg.as_str()))
                    } else if same_text(verb, "unblock") {
                        Some(self.unblock(arg.as_str()))
                    } else if same_text(verb, "ban") {
                        Some(self.ban(arg.as_str()))
                    } else if same_text(verb, "unban") {
                        Some(self.unban(arg.as_str()))
                    } else if same_text(verb, "kick") {
                        Some(self.kick(arg.as_str()))
                    } else if same_text(verb, "troll") {
                        Some(self.troll(arg.as_str()))
                    } else {
                        None
                    }
                },
            }
        }
    }
}

/// The characters of one text.
#[derive(Debug, Default)]
pub struct Characters {
    /// The text.
    pub string: String,
    /// The characters that the text names and that there are rules for, each
    /// under its name. No name stands twice.
    pub characters: Vec<(String, Character)>,
}

/// What a `Characters` holds, as plain texts.
pub struct CharactersView {
    pub string: Seq<char>,
    pub characters: Seq<(Seq<char>, CharacterView)>,
}

impl View for Characters {
    type V = CharactersView;

    open spec fn view(&self) -> CharactersView {
        CharactersView { string: self.string@, characters: entries_view(self.characters@) }
    }
}

/// The position of the first entry with this name.
fn find(entries: &Vec<(String, Character)>, name: &str) -> (r: Option<usize>)
    ensures
        match r {
            Some(i) => i < entries@.len() && lookup(entries_view(entries@), name@) == Some(
                entries@[i as int].1@,
            ),
            None => lookup(entries_view(entries@), name@) is None,
        },
{
    let mut i: usize = 0;
    while i < entries.len()
        invariant
            i <= entries.len(),
            lookup(entries_view(entries@).take(i as int), name@) is None,
        decreases entries.len() - i,
    {
        proof {
            let seen = entries_view(entries@).take(i + 1);
            assert(seen.drop_last() =~= entries_view(entries@).take(i as int));
            assert(seen.last() == (entries@[i as int].0@, entries@[i as int].1@));
        }
        if same_text(entries[i].0.as_str(), name) {
            proof {
                lemma_lookup_first_wins(entries_view(entries@), i + 1, name@);
            }
            return Some(i);
        }
        i = i + 1;
    }
    proof {
        assert(entries_view(entries@).take(entries@.len() as int) =~= entries_view(entries@));
    }
    None
}

/// Tells whether the name is one of the names.
fn is_listed(names: &Vec<String>, name: &str) -> (found: bool)
    ensures
        found == texts(names@).contains(name@),
{
    let mut i: usize = 0;
    while i < names.len()
        invariant
            i <= names.len(),
            forall|j: int| 0 <= j < i ==> texts(names@)[j] != name@,
        decreases names.len() - i,
    {
        if same_text(names[i].as_str(), name) {
            proof {
                assert(texts(names@)[i as int] == name@);
            }
            return true;
        }
        i = i + 1;
    }
    false
}

/// The names that the lines of a text are addressed to, as speech or as
/// commands: each name once, in the order in which they first come.
///
/// These are the names to look for rules for.
pub fn referenced_names(s: &str) -> (names: Vec<String>)
    ensures
        texts(names@) == mentioned(s@),
{
    let chars = chars_of(s);
    let lines = split_chars(&chars, '\n');
    let mut names: Vec<String> = Vec::new();
    let mut i: usize = 0;
    while i < lines.len()
        invariant
            i <= lines.len(),
            texts(names@) == mentioned_in(rows(lines@).take(i as int)),
        decreases lines.len() - i,
    {
        proof {
            let seen = rows(lines@).take(i + 1);
            assert(seen.drop_last() =~= rows(lines@).take(i as int));
            assert(seen.last() == lines@[i as int]@);
        }
        let line = &lines[i];
        let len = match addressed_len(line, ':') {
            Some(n) => Some(n),
            None => addressed_len(line, '!'),
        };
        match len {
            Some(n) => {
                let name = string_of(&slice_chars(line, 0, n));
                proof {
                    assert(line@.subrange(0, n as int) =~= line@.take(n as int));
                }
                if !is_listed(&names, name.as_str()) {
                    let ghost before = texts(names@);
                    names.push(name);
                    proof {
                        assert(texts(names@) =~= before.push(line@.take(n as int)));
                    }
                }
            },
            None => {},
        }
        i = i + 1;
    }
    proof {
        assert(rows(lines@).take(lines@.len() as int) =~= rows(lines@));
    }
    names
}

impl Characters {
    /// The character registered under `name`, if there is one.
    pub open spec fn rule(&self, name: Seq<char>) -> Option<CharacterView> {
        lookup(entries_view(self.characters@), name)
    }

    /// No name is registered twice.
    pub open spec fn wf(&self) -> bool {
        names_differ(entries_view(self.characters@))
    }

    /// Every registered character can apply its quirks.
    pub open spec fn ready(&self) -> bool {
        entries_ready(entries_view(self.characters@))
    }

    /// Registers, for a text, the characters that it names: of `rules`, those
    /// whose name a line of the text is addressed to; of two with one name,
    /// the first.
    ///
    /// `rules` holds what was found for names of the text: see
    /// `referenced_names`.
    pub fn from_string(s: &str, rules: Vec<(String, Character)>) -> (cs: Characters)
        ensures
            cs@.string == s@,
            cs.wf(),
            forall|name: Seq<char>| #[trigger]
                cs.rule(name) == (if mentioned(s@).contains(name) {
                    lookup(entries_view(rules@), name)
                } else {
                    None
                }),
            entries_ready(entries_view(rules@)) ==> cs.ready(),
    {
        let names = referenced_names(s);
        let ghost given = entries_view(rules@);
        let ghost ready = entries_ready(given);
        let mut rules = rules;
        let mut waiting: Vec<(String, Character)> = Vec::new();
        while rules.len() > 0
            invariant
                given =~= entries_view(rules@) + entries_view(waiting@).reverse(),
            decreases rules.len(),
        {
            let ghost left = entries_view(rules@);
            let ghost turned = entries_view(waiting@);
            let entry = rules.pop().unwrap();
            waiting.push(entry);
            proof {
                assert(entries_view(rules@) =~= left.drop_last());
                assert(entries_view(waiting@) =~= turned.push(left.last()));
                assert(entries_view(waiting@).reverse() =~= seq![left.last()] + turned.reverse());
            }
        }
        let mut kept: Vec<(String, Character)> = Vec::new();
        let ghost mut seen: int = 0;
        while waiting.len() > 0
            invariant
                0 <= seen <= given.len(),
                texts(names@) == mentioned(s@),
                ready == entries_ready(given),
                entries_view(waiting@).reverse() =~= given.skip(seen),
                names_differ(entries_view(kept@)),
                ready ==> entries_ready(entries_view(kept@)),
                forall|name: Seq<char>| #[trigger]
                    lookup(entries_view(kept@), name) == (if mentioned(s@).contains(name) {
                        lookup(given.take(seen), name)
                    } else {
                        None
                    }),
            decreases waiting.len(),
        {
            let ghost turned = entries_view(waiting@);
            let ghost before = entries_view(kept@);
            let entry = waiting.pop().unwrap();
            let ghost next = (entry.0@, entry.1@);
            proof {
                assert(entries_view(waiting@) =~= turned.drop_last());
                assert(turned.last() == next);
                assert(turned.reverse()[0] == next);
                assert(turned.reverse() == given.skip(seen));
                assert(turned.reverse().len() == turned.len());
                assert(given.skip(seen).len() == given.len() - seen);
                assert(given.skip(seen)[0] == given[seen]);
                assert(given[seen] == next);
                assert(turned.drop_last().reverse() =~= turned.reverse().skip(1));
                assert(given.skip(seen).skip(1) =~= given.skip(seen + 1));
                assert(given.take(seen + 1).drop_last() =~= given.take(seen));
                lemma_lookup_found(before, next.0);
            }
            let wanted = is_listed(&names, entry.0.as_str()) && find(
                &kept,
                entry.0.as_str(),
            ).is_none();
            if wanted {
                kept.push(entry);
                proof {
                    let after = entries_view(kept@);
                    assert(after =~= before.push(next));
                    assert(after.drop_last() =~= before);
                    assert(names_differ(after)) by {
                        assert forall|i: int, j: int| 0 <= i < j < after.len() implies (
                        #[trigger] after[i]).0 != (#[trigger] after[j]).0 by {
                            if j < before.len() {
                                assert(after[i] == before[i] && after[j] == before[j]);
                            } else {
                                assert(after[i] == before[i]);
                            }
                        }
                    }
                    if ready {
                        assert(character_ready(given[seen].1));
                        assert forall|i: int| 0 <= i < after.len() implies character_ready(
                            (#[trigger] after[i]).1,
                        ) by {
                            if i < before.len() {
                                assert(after[i] == before[i]);
                            }
                        }
                    }
                }
            }
            proof {
                let after = entries_view(kept@);
                assert forall|name: Seq<char>| #[trigger]
                    lookup(after, name) == (if mentioned(s@).contains(name) {
                        lookup(given.take(seen + 1), name)
                    } else {
                        None
                    }) by {
                    assert(lookup(before, name) == (if mentioned(s@).contains(name) {
                        lookup(given.take(seen), name)
                    } else {
                        None
                    }));
                    assert(lookup(before, next.0) == (if mentioned(s@).contains(next.0) {
                        lookup(given.take(seen), next.0)
                    } else {
                        None
                    }));
                }
                seen = seen + 1;
            }
        }
        proof {
            assert(given.take(seen) =~= given);
        }
        Characters { string: s.to_owned(), characters: kept }
    }

    /// Rewrites the text where every registered character can apply its
    /// quirks, and tells by `None` where one cannot.
    pub fn try_quirked(&self) -> (r: Option<String>)
        ensures
            r is Some <==> self.ready(),
            r is Some ==> text_outcome(self@.characters, self@.string, r->0@),
    {
        if self.is_ready() {
            Some(self.quirked())
        } else {
            None
        }
    }

    /// Tells whether every registered character can apply its quirks.
    pub fn is_ready(&self) -> (ok: bool)
        ensures
            ok == self.ready(),
    {
        let mut i: usize = 0;
        while i < self.characters.len()
            invariant
                i <= self.characters.len(),
                forall|j: int|
                    0 <= j < i ==> character_ready(
                        (#[trigger] entries_view(self.characters@)[j]).1,
                    ),
            decreases self.characters.len() - i,
        {
            if !self.characters[i].1.is_ready() {
                proof {
                    assert(!character_ready(entries_view(self.characters@)[i as int].1));
                }
                return false;
            }
            i = i + 1;
        }
        true
    }

    /// Rewrites the text line by line: what a registered character says goes
    /// through that character's quirks, what a registered character does
    /// becomes an announcement, and every other line stays as it is.
    pub fn quirked(&self) -> (r: String)
        requires
            self.ready(),
        ensures
            text_outcome(self@.characters, self@.string, r@),
    {
        let chars = chars_of(self.string.as_str());
        let lines = split_chars(&chars, '\n');
        let mut outs: Vec<Vec<char>> = Vec::new();
        let ghost entries = entries_view(self.characters@);
        let mut i: usize = 0;
        while i < lines.len()
            invariant
                i <= lines.len(),
                outs@.len() == i,
                entries == entries_view(self.characters@),
                entries_ready(entries),
                forall|j: int|
                    0 <= j < i ==> routed(entries, rows(lines@)[j], #[trigger] rows(outs@)[j]),
            decreases lines.len() - i,
        {
            let line = string_of(&lines[i]);
            let out = self.route(line);
            let ghost before = rows(outs@);
            outs.push(chars_of(out.as_str()));
            proof {
                assert(rows(outs@) =~= before.push(out@));
                assert forall|j: int| 0 <= j < i + 1 implies routed(
                    entries,
                    rows(lines@)[j],
                    #[trigger] rows(outs@)[j],
                ) by {
                    if j < i {
                        assert(rows(outs@)[j] == before[j]);
                    }
                }
            }
            i = i + 1;
        }
        let joined = join_chars(&outs, '\n');
        proof {
            assert(all_routed(entries, split_on(self.string@, '\n'), rows(outs@)));
        }
        string_of(&joined)
    }

    /// What becomes of one line.
    fn route(&self, line: String) -> (out: String)
        requires
            self.ready(),
        ensures
            routed(entries_view(self.characters@), line@, out@),
    {
        match classify(line.as_str()) {
            Line::Speech { name, body } => match find(&self.characters, name.as_str()) {
                Some(at) => {
                    proof {
                        assert(entries_view(self.characters@)[at as int].1
                            == self.characters@[at as int].1@);
                    }
                    self.characters[at].1.quirked(body.as_str())
                },
                None => line,
            },
            Line::Command { name, verb, argument } => match find(
                &self.characters,
                name.as_str(),
            ) {
                Some(at) => match self.characters[at].1.command(verb.as_str(), &argument) {
                    Some(announced) => announced,
                    None => line,
                },
                None => line,
            },
            Line::Plain(_) => line,
        }
    }
}

} // verus!
