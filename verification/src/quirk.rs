//! Characters and their quirks: the operations that rewrite what a character
//! says, applied in the order in which they are listed.

use vstd::prelude::*;
use vstd::string::StringExecFns;
use crate::casing::{char_is_uppercase, char_uppercase, is_uppercase, upper_of_char};
use crate::draw::{drawn_outcome, replace_drawn, Draw, Source};
use crate::literal::{replace_all, replaced};
use crate::pattern::{pattern_compiles, regex_compiles, regex_replaced, replace_matches};
use crate::segment::{grapheme_clusters, graphemes};
use crate::style::{apply_style, styled};
use crate::text::{chars_of, push_char, texts};

pub use crate::characters::{classify, referenced_names, Characters, Line};
pub use crate::jsonc::strip_jsonc_comments;
pub use crate::rule::{is_rule_document, parse_safe, rule_file_location};
pub use crate::style::{capitalize, invert_capitalization, Style};

verus! {

/// One operation on a text.
#[derive(Debug, PartialEq, Eq)]
pub enum Quirk {
    /// Puts the text before what is said.
    Prefix(String),
    /// Puts the text behind what is said.
    Suffix(String),
    /// For each pair in turn, replaces every occurrence of the first text by
    /// the second. A later pair works on what the earlier ones left.
    SimpleReplacements(Vec<(String, String)>),
    /// For each pair in turn, replaces every occurrence of the text by one of
    /// the choices, picked at random for each occurrence.
    RandomReplacements(Vec<(String, Vec<String>)>),
    /// For each pair in turn, replaces every match of the regular expression
    /// by the template, in which `$name` and `$1` stand for capture groups.
    RegexReplacements(Vec<(String, String)>),
    /// For each pair in turn, replaces every occurrence of the first text by
    /// the grapheme clusters of the second, shuffled anew for each occurrence.
    Scramble(Vec<(String, String)>),
    /// Applies a typing style to the whole text.
    Style(Style),
    /// An operation that this library does not know: it leaves the text as it is.
    Unknown,
}

/// What a quirk holds, as plain texts.
pub enum QuirkView {
    Prefix(Seq<char>),
    Suffix(Seq<char>),
    SimpleReplacements(Seq<(Seq<char>, Seq<char>)>),
    RandomReplacements(Seq<(Seq<char>, Seq<Seq<char>>)>),
    RegexReplacements(Seq<(Seq<char>, Seq<char>)>),
    Scramble(Seq<(Seq<char>, Seq<char>)>),
    Style(Style),
    Unknown,
}

/// The texts of a list of pairs.
pub open spec fn pairs_view(v: Seq<(String, String)>) -> Seq<(Seq<char>, Seq<char>)> {
    v.map_values(|p: (String, String)| (p.0@, p.1@))
}

/// The texts of a list of literals with their choices.
pub open spec fn choices_view(v: Seq<(String, Vec<String>)>) -> Seq<(Seq<char>, Seq<Seq<char>>)> {
    v.map_values(|p: (String, Vec<String>)| (p.0@, texts(p.1@)))
}

impl View for Quirk {
    type V = QuirkView;

    open spec fn view(&self) -> QuirkView {
        match self {
            Quirk::Prefix(p) => QuirkView::Prefix(p@),
            Quirk::Suffix(s) => QuirkView::Suffix(s@),
            Quirk::SimpleReplacements(pairs) => QuirkView::SimpleReplacements(pairs_view(pairs@)),
            Quirk::RandomReplacements(pairs) => QuirkView::RandomReplacements(
                choices_view(pairs@),
            ),
            Quirk::RegexReplacements(pairs) => QuirkView::RegexReplacements(pairs_view(pairs@)),
            Quirk::Scramble(pairs) => QuirkView::Scramble(pairs_view(pairs@)),
            Quirk::Style(style) => QuirkView::Style(*style),
            Quirk::Unknown => QuirkView::Unknown,
        }
    }
}

/// The views of a list of quirks.
pub open spec fn quirks_view(v: Seq<Quirk>) -> Seq<QuirkView> {
    v.map_values(|q: Quirk| q@)
}

/// `s` after the pairs were applied in turn, each replacing every occurrence
/// of its first text by its second.
pub open spec fn replaced_in_turn(s: Seq<char>, pairs: Seq<(Seq<char>, Seq<char>)>) -> Seq<char>
    decreases pairs.len(),
{
    if pairs.len() == 0 {
        s
    } else {
        replaced(replaced_in_turn(s, pairs.drop_last()), pairs.last().0, pairs.last().1)
    }
}

/// `s` after the pairs were applied in turn, each replacing every match of
/// its regular expression by its template.
pub open spec fn regex_replaced_in_turn(
    s: Seq<char>,
    pairs: Seq<(Seq<char>, Seq<char>)>,
) -> Seq<char>
    decreases pairs.len(),
{
    if pairs.len() == 0 {
        s
    } else {
        regex_replaced(
            pairs.last().0,
            regex_replaced_in_turn(s, pairs.drop_last()),
            pairs.last().1,
        )
    }
}

/// For each literal, the choices that its occurrences are replaced by.
pub open spec fn random_plan(pairs: Seq<(Seq<char>, Seq<Seq<char>>)>) -> Seq<(Seq<char>, Source)> {
    pairs.map_values(|p: (Seq<char>, Seq<Seq<char>>)| (p.0, Source::OneOf(p.1)))
}

/// For each literal, the grapheme clusters that its occurrences are replaced
/// by, in an order of their own each.
pub open spec fn scramble_plan(pairs: Seq<(Seq<char>, Seq<char>)>) -> Seq<(Seq<char>, Source)> {
    pairs.map_values(|p: (Seq<char>, Seq<char>)| (p.0, Source::Shuffled(grapheme_clusters(p.1))))
}

/// The steps of the plan were taken in turn on `s`, each replacing the
/// occurrences of its literal by texts from its source, and `r` came of it.
pub open spec fn drawn_in_turn(s: Seq<char>, plan: Seq<(Seq<char>, Source)>, r: Seq<char>) -> bool
    decreases plan.len(),
{
    if plan.len() == 0 {
        r == s
    } else {
        exists|mid: Seq<char>|
            drawn_in_turn(s, plan.drop_last(), mid) && #[trigger] drawn_outcome(
                mid,
                plan.last().0,
                plan.last().1,
                r,
            )
    }
}

/// Each literal has at least one choice to be replaced by.
pub open spec fn all_have_choices(pairs: Seq<(Seq<char>, Seq<Seq<char>>)>) -> bool {
    forall|i: int| 0 <= i < pairs.len() ==> (#[trigger] pairs[i]).1.len() > 0
}

/// Each regular expression is one that `regex` accepts.
pub open spec fn all_compile(pairs: Seq<(Seq<char>, Seq<char>)>) -> bool {
    forall|i: int| 0 <= i < pairs.len() ==> regex_compiles((#[trigger] pairs[i]).0)
}

/// The quirk can be applied: each random replacement has a choice to pick,
/// and each regular expression is one that `regex` accepts.
pub open spec fn quirk_ready(q: QuirkView) -> bool {
    match q {
        QuirkView::RandomReplacements(pairs) => all_have_choices(pairs),
        QuirkView::RegexReplacements(pairs) => all_compile(pairs),
        _ => true,
    }
}

/// Every quirk of the list can be applied.
pub open spec fn quirks_ready(quirks: Seq<QuirkView>) -> bool {
    forall|i: int| 0 <= i < quirks.len() ==> quirk_ready(#[trigger] quirks[i])
}

/// `r` is what the quirk can make of `s`. For all quirks but the random ones
/// there is one such `r`.
pub open spec fn mutate_outcome(s: Seq<char>, q: QuirkView, r: Seq<char>) -> bool {
    match q {
        QuirkView::Prefix(p) => r == p + s,
        QuirkView::Suffix(x) => r == s + x,
        QuirkView::SimpleReplacements(pairs) => r == replaced_in_turn(s, pairs),
        QuirkView::RandomReplacements(pairs) => drawn_in_turn(s, random_plan(pairs), r),
        QuirkView::RegexReplacements(pairs) => r == regex_replaced_in_turn(s, pairs),
        QuirkView::Scramble(pairs) => drawn_in_turn(s, scramble_plan(pairs), r),
        QuirkView::Style(style) => r == styled(style, s),
        QuirkView::Unknown => r == s,
    }
}

/// `r` is what the quirks, applied in their order, can make of `s`: what one
/// leaves is what the next one works on.
pub open spec fn pipeline_outcome(s: Seq<char>, quirks: Seq<QuirkView>, r: Seq<char>) -> bool
    decreases quirks.len(),
{
    if quirks.len() == 0 {
        r == s
    } else {
        exists|mid: Seq<char>|
            pipeline_outcome(s, quirks.drop_last(), mid) && #[trigger] mutate_outcome(
                mid,
                quirks.last(),
                r,
            )
    }
}

/// Tells whether each literal has a choice to be replaced by.
fn choices_present(pairs: &Vec<(String, Vec<String>)>) -> (ok: bool)
    ensures
        ok == all_have_choices(choices_view(pairs@)),
{
    let mut i: usize = 0;
    while i < pairs.len()
        invariant
            i <= pairs.len(),
            forall|j: int| 0 <= j < i ==> (#[trigger] choices_view(pairs@)[j]).1.len() > 0,
        decreases pairs.len() - i,
    {
        if pairs[i].1.len() == 0 {
            proof {
                assert(choices_view(pairs@)[i as int].1.len() == 0);
            }
            return false;
        }
        i = i + 1;
    }
    true
}

/// Tells whether each regular expression is one that `regex` accepts.
fn patterns_compile(pairs: &Vec<(String, String)>) -> (ok: bool)
    ensures
        ok == all_compile(pairs_view(pairs@)),
{
    let mut i: usize = 0;
    while i < pairs.len()
        invariant
            i <= pairs.len(),
            forall|j: int| 0 <= j < i ==> regex_compiles((#[trigger] pairs_view(pairs@)[j]).0),
        decreases pairs.len() - i,
    {
        if !pattern_compiles(pairs[i].0.as_str()) {
            proof {
                assert(!regex_compiles(pairs_view(pairs@)[i as int].0));
            }
            return false;
        }
        i = i + 1;
    }
    true
}

impl Quirk {
    /// Tells whether the quirk can be applied.
    pub fn is_ready(&self) -> (ok: bool)
        ensures
            ok == quirk_ready(self@),
    {
        match self {
            Quirk::RandomReplacements(pairs) => choices_present(pairs),
            Quirk::RegexReplacements(pairs) => patterns_compile(pairs),
            _ => true,
        }
    }
}

/// Applies the pairs in turn, each to every occurrence of its first text.
fn replace_in_turn(s: &str, pairs: &Vec<(String, String)>) -> (r: String)
    ensures
        r@ == replaced_in_turn(s@, pairs_view(pairs@)),
{
    let mut cur = s.to_owned();
    let mut i: usize = 0;
    while i < pairs.len()
        invariant
            i <= pairs.len(),
            cur@ == replaced_in_turn(s@, pairs_view(pairs@).take(i as int)),
        decreases pairs.len() - i,
    {
        proof {
            let done = pairs_view(pairs@).take(i + 1);
            assert(done.drop_last() =~= pairs_view(pairs@).take(i as int));
            assert(done.last() == (pairs@[i as int].0@, pairs@[i as int].1@));
        }
        cur = replace_all(cur.as_str(), pairs[i].0.as_str(), pairs[i].1.as_str());
        i = i + 1;
    }
    proof {
        assert(pairs_view(pairs@).take(pairs@.len() as int) =~= pairs_view(pairs@));
    }
    cur
}

/// Applies the pairs in turn, each to every match of its regular expression.
fn regex_replace_in_turn(s: &str, pairs: &Vec<(String, String)>) -> (r: String)
    requires
        all_compile(pairs_view(pairs@)),
    ensures
        r@ == regex_replaced_in_turn(s@, pairs_view(pairs@)),
{
    let mut cur = s.to_owned();
    let mut i: usize = 0;
    while i < pairs.len()
        invariant
            i <= pairs.len(),
            all_compile(pairs_view(pairs@)),
            cur@ == regex_replaced_in_turn(s@, pairs_view(pairs@).take(i as int)),
        decreases pairs.len() - i,
    {
        proof {
            let done = pairs_view(pairs@).take(i + 1);
            assert(done.drop_last() =~= pairs_view(pairs@).take(i as int));
            assert(done.last() == (pairs@[i as int].0@, pairs@[i as int].1@));
            assert(regex_compiles(pairs_view(pairs@)[i as int].0));
        }
        cur = replace_matches(pairs[i].0.as_str(), cur.as_str(), pairs[i].1.as_str()).unwrap();
        i = i + 1;
    }
    proof {
        assert(pairs_view(pairs@).take(pairs@.len() as int) =~= pairs_view(pairs@));
    }
    cur
}

/// Applies the pairs in turn, each to every occurrence of its text, picking
/// one of the choices for each occurrence.
fn replace_at_random(s: &str, pairs: &Vec<(String, Vec<String>)>) -> (r: String)
    requires
        all_have_choices(choices_view(pairs@)),
    ensures
        drawn_in_turn(s@, random_plan(choices_view(pairs@)), r@),
{
    let mut cur = s.to_owned();
    let ghost plan = random_plan(choices_view(pairs@));
    let mut i: usize = 0;
    while i < pairs.len()
        invariant
            i <= pairs.len(),
            plan == random_plan(choices_view(pairs@)),
            all_have_choices(choices_view(pairs@)),
            drawn_in_turn(s@, plan.take(i as int), cur@),
        decreases pairs.len() - i,
    {
        let ghost source = Source::OneOf(texts(pairs@[i as int].1@));
        let ghost before = cur@;
        proof {
            assert(plan.take(i + 1).drop_last() =~= plan.take(i as int));
            assert(plan.take(i + 1).last() == (pairs@[i as int].0@, source));
            assert(choices_view(pairs@)[i as int].1.len() > 0);
        }
        let mut draw = Draw::OneOf(&pairs[i].1);
        cur = replace_drawn(cur.as_str(), pairs[i].0.as_str(), &mut draw, Ghost(source));
        proof {
            assert(drawn_in_turn(s@, plan.take(i + 1).drop_last(), before));
            assert(drawn_outcome(
                before,
                plan.take(i + 1).last().0,
                plan.take(i + 1).last().1,
                cur@,
            ));
        }
        i = i + 1;
    }
    proof {
        assert(plan.take(pairs@.len() as int) =~= plan);
    }
    cur
}

/// Applies the pairs in turn, each to every occurrence of its first text,
/// shuffling the grapheme clusters of the second anew for each occurrence.
fn scramble(s: &str, pairs: &Vec<(String, String)>) -> (r: String)
    ensures
        drawn_in_turn(s@, scramble_plan(pairs_view(pairs@)), r@),
{
    let mut cur = s.to_owned();
    let ghost plan = scramble_plan(pairs_view(pairs@));
    let mut i: usize = 0;
    while i < pairs.len()
        invariant
            i <= pairs.len(),
            plan == scramble_plan(pairs_view(pairs@)),
            drawn_in_turn(s@, plan.take(i as int), cur@),
        decreases pairs.len() - i,
    {
        let ghost source = Source::Shuffled(grapheme_clusters(pairs@[i as int].1@));
        let ghost before = cur@;
        proof {
            assert(plan.take(i + 1).drop_last() =~= plan.take(i as int));
            assert(plan.take(i + 1).last() == (pairs@[i as int].0@, source));
        }
        let mut draw = Draw::Shuffled(graphemes(pairs[i].1.as_str()));
        cur = replace_drawn(cur.as_str(), pairs[i].0.as_str(), &mut draw, Ghost(source));
        proof {
            assert(drawn_in_turn(s@, plan.take(i + 1).drop_last(), before));
            assert(drawn_outcome(
                before,
                plan.take(i + 1).last().0,
                plan.take(i + 1).last().1,
                cur@,
            ));
        }
        i = i + 1;
    }
    proof {
        assert(plan.take(pairs@.len() as int) =~= plan);
    }
    cur
}

/// Applies one quirk to a text.
///
/// The random quirks draw from the generator of the current thread, so two
/// calls may differ; the contract says what every result has in common.
pub fn mutate_line(s: &str, d: &Quirk) -> (r: String)
    requires
        quirk_ready(d@),
    ensures
        mutate_outcome(s@, d@, r@),
{
    match d {
        Quirk::Prefix(p) => {
            let mut r = p.clone();
            r.append(s);
            r
        },
        Quirk::Suffix(x) => {
            let mut r = s.to_owned();
            r.append(x.as_str());
            r
        },
        Quirk::SimpleReplacements(pairs) => replace_in_turn(s, pairs),
        Quirk::RandomReplacements(pairs) => replace_at_random(s, pairs),
        Quirk::RegexReplacements(pairs) => regex_replace_in_turn(s, pairs),
        Quirk::Scramble(pairs) => scramble(s, pairs),
        Quirk::Style(style) => apply_style(*style, s),
        Quirk::Unknown => s.to_owned(),
    }
}

/// Applies the quirks to a text in their order: what one leaves is what the
/// next one works on.
pub fn mutate_line_multi(s: &str, d: &Vec<Quirk>) -> (r: String)
    requires
        quirks_ready(quirks_view(d@)),
    ensures
        pipeline_outcome(s@, quirks_view(d@), r@),
{
    let mut cur = s.to_owned();
    let mut i: usize = 0;
    while i < d.len()
        invariant
            i <= d.len(),
            quirks_ready(quirks_view(d@)),
            pipeline_outcome(s@, quirks_view(d@).take(i as int), cur@),
        decreases d.len() - i,
    {
        let ghost before = cur@;
        proof {
            let done = quirks_view(d@).take(i + 1);
            assert(done.drop_last() =~= quirks_view(d@).take(i as int));
            assert(done.last() == d@[i as int]@);
            assert(quirk_ready(quirks_view(d@)[i as int]));
        }
        cur = mutate_line(cur.as_str(), &d[i]);
        proof {
            assert(pipeline_outcome(s@, quirks_view(d@).take(i + 1).drop_last(), before));
            assert(mutate_outcome(before, quirks_view(d@).take(i + 1).last(), cur@));
        }
        i = i + 1;
    }
    proof {
        assert(quirks_view(d@).take(d@.len() as int) =~= quirks_view(d@));
    }
    cur
}

/// A character: who speaks, under which label, and with which quirks.
#[derive(Debug, PartialEq, Eq)]
pub struct Character {
    /// The name shown in announcements.
    pub handle: String,
    /// The short label put before what the character says.
    pub acronym: String,
    /// The operations on what the character says, in the order in which they
    /// are applied.
    pub quirks: Vec<Quirk>,
}

/// What a character holds, as plain texts.
pub struct CharacterView {
    pub handle: Seq<char>,
    pub acronym: Seq<char>,
    pub quirks: Seq<QuirkView>,
}

impl View for Character {
    type V = CharacterView;

    open spec fn view(&self) -> CharacterView {
        CharacterView {
            handle: self.handle@,
            acronym: self.acronym@,
            quirks: quirks_view(self.quirks@),
        }
    }
}

/// Every quirk of the character can be applied.
pub open spec fn character_ready(c: CharacterView) -> bool {
    quirks_ready(c.quirks)
}

/// What is said, with the label before it.
pub open spec fn labelled(acronym: Seq<char>, said: Seq<char>) -> Seq<char> {
    acronym + ": "@ + said
}

/// `r` is what the character can make of `s`: the quirks applied in their
/// order, and the label put before the result.
pub open spec fn quirked_outcome(s: Seq<char>, c: CharacterView, r: Seq<char>) -> bool {
    exists|said: Seq<char>|
        pipeline_outcome(s, c.quirks, said) && r == #[trigger] labelled(c.acronym, said)
}

/// An announcement: the body between the marks of a code block, after the
/// character's handle and label.
pub open spec fn framed(c: CharacterView, body: Seq<char>) -> Seq<char> {
    "```\n-- "@ + c.handle + " ["@ + c.acronym + "] "@ + body + " --\n```"@
}

/// The upper-case characters of `s`, in order.
pub open spec fn uppercase_letters(s: Seq<char>) -> Seq<char>
    decreases s.len(),
{
    if s.len() == 0 {
        Seq::<char>::empty()
    } else if char_is_uppercase(s.last()) {
        uppercase_letters(s.drop_last()).push(s.last())
    } else {
        uppercase_letters(s.drop_last())
    }
}

/// The label made up for a user: the first character of the name in upper
/// case, then every upper-case character of the name, the first one too if it
/// is one.
pub open spec fn derived_acronym(user: Seq<char>) -> Seq<char> {
    char_uppercase(user[0]) + uppercase_letters(user)
}

/// What is announced of a user: the phrase, the user's name and made-up label,
/// and the ending.
pub open spec fn about_user(phrase: Seq<char>, user: Seq<char>, ending: Seq<char>) -> Seq<char> {
    phrase + " "@ + user + " ["@ + derived_acronym(user) + "]"@ + ending
}

/// What is announced of an uploaded file: its name between quotation marks.
pub open spec fn about_file(file: Seq<char>) -> Seq<char> {
    "has uploaded \""@ + file + "\""@
}

/// Tells whether every quirk of the list can be applied.
fn all_ready(quirks: &Vec<Quirk>) -> (ok: bool)
    ensures
        ok == quirks_ready(quirks_view(quirks@)),
{
    let mut i: usize = 0;
    while i < quirks.len()
        invariant
            i <= quirks.len(),
            forall|j: int| 0 <= j < i ==> quirk_ready(#[trigger] quirks_view(quirks@)[j]),
        decreases quirks.len() - i,
    {
        if !quirks[i].is_ready() {
            proof {
                assert(!quirk_ready(quirks_view(quirks@)[i as int]));
            }
            return false;
        }
        i = i + 1;
    }
    true
}

/// Rewrites what the character says and puts the character's label before it.
pub fn quirked(s: &str, c: &Character) -> (r: String)
    requires
        character_ready(c@),
    ensures
        quirked_outcome(s@, c@, r@),
{
    let said = mutate_line_multi(s, &c.quirks);
    let mut r = c.acronym.clone();
    r.append(": ");
    r.append(said.as_str());
    proof {
        assert(r@ == labelled(c@.acronym, said@));
    }
    r
}

/// Frames the body of an announcement.
fn frame(c: &Character, body: &str) -> (r: String)
    ensures
        r@ == framed(c@, body@),
{
    let mut r = "```\n-- ".to_owned();
    r.append(c.handle.as_str());
    r.append(" [");
    r.append(c.acronym.as_str());
    r.append("] ");
    r.append(body);
    r.append(" --\n```");
    r
}

/// Makes up the label of a user.
fn derive_acronym(user: &str) -> (r: String)
    requires
        user@.len() > 0,
    ensures
        r@ == derived_acronym(user@),
{
    let chars = chars_of(user);
    let mut r = upper_of_char(chars[0]);
    let mut i: usize = 0;
    while i < chars.len()
        invariant
            i <= chars.len(),
            chars@ == user@,
            r@ == char_uppercase(user@[0]) + uppercase_letters(user@.take(i as int)),
        decreases chars.len() - i,
    {
        proof {
            assert(user@.take(i + 1).drop_last() =~= user@.take(i as int));
        }
        if is_uppercase(chars[i]) {
            let ghost before = r@;
            push_char(&mut r, chars[i]);
            proof {
                assert(r@ =~= char_uppercase(user@[0]) + uppercase_letters(user@.take(i + 1)));
            }
        }
        i = i + 1;
    }
    proof {
        assert(user@.take(user@.len() as int) =~= user@);
    }
    r
}

/// Announces something of a user.
fn announce_about(c: &Character, phrase: &str, user: &str, ending: &str) -> (r: String)
    requires
        user@.len() > 0,
    ensures
        r@ == framed(c@, about_user(phrase@, user@, ending@)),
{
    let label = derive_acronym(user);
    let mut body = phrase.to_owned();
    body.append(" ");
    body.append(user);
    body.append(" [");
    body.append(label.as_str());
    body.append("]");
    body.append(ending);
    frame(c, body.as_str())
}

/// Announces that the character is online.
pub fn online(c: &Character) -> (r: String)
    ensures
        r@ == framed(c@, "is now online!"@),
{
    frame(c, "is now online!")
}

/// Announces that the character is offline.
pub fn offline(c: &Character) -> (r: String)
    ensures
        r@ == framed(c@, "is now offline!"@),
{
    frame(c, "is now offline!")
}

/// Announces that the character is idle.
pub fn idle(c: &Character) -> (r: String)
    ensures
        r@ == framed(c@, "is now idle!"@),
{
    frame(c, "is now idle!")
}

/// Announces that the character is no longer idle.
pub fn unidle(c: &Character) -> (r: String)
    ensures
        r@ == framed(c@, "is no longer idle!"@),
{
    frame(c, "is no longer idle!")
}

/// Announces that the character has joined the memo.
pub fn join(c: &Character) -> (r: String)
    ensures
        r@ == framed(c@, "has joined the memo!"@),
{
    frame(c, "has joined the memo!")
}

/// Announces that the character has left the memo.
pub fn leave(c: &Character) -> (r: String)
    ensures
        r@ == framed(c@, "has left the memo!"@),
{
    frame(c, "has left the memo!")
}

/// Announces that the character has blocked a user.
pub fn block(c: &Character, user: &str) -> (r: String)
    requires
        user@.len() > 0,
    ensures
        r@ == framed(c@, about_user("has blocked"@, user@, "!"@)),
{
    announce_about(c, "has blocked", user, "!")
}

/// Announces that the character has unblocked a user.
pub fn unblock(c: &Character, user: &str) -> (r: String)
    requires
        user@.len() > 0,
    ensures
        r@ == framed(c@, about_user("has unblocked"@, user@, "!"@)),
{
    announce_about(c, "has unblocked", user, "!")
}

/// Announces that the character has kicked a user from the memo.
pub fn kick(c: &Character, user: &str) -> (r: String)
    requires
        user@.len() > 0,
    ensures
        r@ == framed(c@, about_user("has kicked"@, user@, " from the memo!"@)),
{
    announce_about(c, "has kicked", user, " from the memo!")
}

/// Announces that the character has banned a user from the memo.
pub fn ban(c: &Character, user: &str) -> (r: String)
    requires
        user@.len() > 0,
    ensures
        r@ == framed(c@, about_user("has banned"@, user@, " from the memo!"@)),
{
    announce_about(c, "has banned", user, " from the memo!")
}

/// Announces that the character has unbanned a user from the memo.
pub fn unban(c: &Character, user: &str) -> (r: String)
    requires
        user@.len() > 0,
    ensures
        r@ == framed(c@, about_user("has unbanned"@, user@, " from the memo!"@)),
{
    announce_about(c, "has unbanned", user, " from the memo!")
}

/// Announces that the character has uploaded a file.
pub fn upload(c: &Character, file: &str) -> (r: String)
    ensures
        r@ == framed(c@, about_file(file@)),
{
    let mut body = "has uploaded \"".to_owned();
    body.append(file);
    body.append("\"");
    frame(c, body.as_str())
}

/// Announces that the character has begun trolling a user.
pub fn troll(c: &Character, user: &str) -> (r: String)
    requires
        user@.len() > 0,
    ensures
        r@ == framed(c@, about_user("has begun trolling"@, user@, "!"@)),
{
    announce_about(c, "has begun trolling", user, "!")
}

impl Character {
    /// Tells whether every quirk of the character can be applied.
    pub fn is_ready(&self) -> (ok: bool)
        ensures
            ok == character_ready(self@),
    {
        all_ready(&self.quirks)
    }

    /// Rewrites what the character says and puts the character's label
    /// before it.
    pub fn quirked(&self, s: &str) -> (r: String)
        requires
            character_ready(self@),
        ensures
            quirked_outcome(s@, self@, r@),
    {
        quirked(s, self)
    }

    /// Announces that the character is online.
    pub fn online(&self) -> (r: String)
        ensures
            r@ == framed(self@, "is now online!"@),
    {
        online(self)
    }

    /// Announces that the character is offline.
    pub fn offline(&self) -> (r: String)
        ensures
            r@ == framed(self@, "is now offline!"@),
    {
        offline(self)
    }

    /// Announces that the character is idle.
    pub fn idle(&self) -> (r: String)
        ensures
            r@ == framed(self@, "is now idle!"@),
    {
        idle(self)
    }

    /// Announces that the character is no longer idle.
    pub fn unidle(&self) -> (r: String)
        ensures
            r@ == framed(self@, "is no longer idle!"@),
    {
        unidle(self)
    }

    /// Announces that the character has joined the memo.
    pub fn join(&self) -> (r: String)
        ensures
            r@ == framed(self@, "has joined the memo!"@),
    {
        join(self)
    }

    /// Announces that the character has left the memo.
    pub fn leave(&self) -> (r: String)
        ensures
            r@ == framed(self@, "has left the memo!"@),
    {
        leave(self)
    }

    /// Announces that the character has blocked a user.
    pub fn block(&self, user: &str) -> (r: String)
        requires
            user@.len() > 0,
        ensures
            r@ == framed(self@, about_user("has blocked"@, user@, "!"@)),
    {
        block(self, user)
    }

    /// Announces that the character has unblocked a user.
    pub fn unblock(&self, user: &str) -> (r: String)
        requires
            user@.len() > 0,
        ensures
            r@ == framed(self@, about_user("has unblocked"@, user@, "!"@)),
    {
        unblock(self, user)
    }

    /// Announces that the character has uploaded a file.
    pub fn upload(&self, file: &str) -> (r: String)
        ensures
            r@ == framed(self@, about_file(file@)),
    {
        upload(self, file)
    }

    /// Announces that the character has kicked a user from the memo.
    pub fn kick(&self, user: &str) -> (r: String)
        requires
            user@.len() > 0,
        ensures
            r@ == framed(self@, about_user("has kicked"@, user@, " from the memo!"@)),
    {
        kick(self, user)
    }

    /// Announces that the character has banned a user from the memo.
    pub fn ban(&self, user: &str) -> (r: String)
        requires
            user@.len() > 0,
        ensures
            r@ == framed(self@, about_user("has banned"@, user@, " from the memo!"@)),
    {
        ban(self, user)
    }

    /// Announces that the character has unbanned a user from the memo.
    pub fn unban(&self, user: &str) -> (r: String)
        requires
            user@.len() > 0,
        ensures
            r@ == framed(self@, about_user("has unbanned"@, user@, " from the memo!"@)),
    {
        unban(self, user)
    }

    /// Announces that the character has begun trolling a user.
    pub fn troll(&self, user: &str) -> (r: String)
        requires
            user@.len() > 0,
        ensures
            r@ == framed(self@, about_user("has begun trolling"@, user@, "!"@)),
    {
        troll(self, user)
    }
}

} // verus!
