//! What holds of the library as a whole, proved from the contracts of its
//! functions.

use vstd::prelude::*;
use crate::characters::{
    all_routed, classified, is_letter, letters_from, line_name, lookup, mentioned, mentioned_in,
    routed, speech_name, text_outcome, LineView,
};
use crate::chance::{is_arrangement_of, lemma_arrangement_len};
use crate::draw::{drawn_outcome, is_scramble_of, Source};
use crate::literal::{occurrences, replaced_each};
use crate::quirk::{
    drawn_in_turn, mutate_outcome, pipeline_outcome, quirked_outcome, random_plan, scramble_plan,
    CharacterView, QuirkView,
};
use crate::segment::grapheme_clusters;
use crate::text::{concat, join_with, lemma_join_split, split_on};

verus! {

/// A text without the separator is one piece.
pub proof fn lemma_split_one_piece(s: Seq<char>, sep: char)
    requires
        forall|i: int| 0 <= i < s.len() ==> s[i] != sep,
    ensures
        split_on(s, sep) == seq![s],
    decreases s.len(),
{
    if s.len() == 0 {
        assert(s =~= Seq::<char>::empty());
    } else {
        lemma_split_one_piece(s.drop_last(), sep);
        assert(s.drop_last().push(s.last()) =~= s);
        assert(split_on(s, sep) =~= seq![s]);
    }
}

/// A line that begins with letters only, up to `n`, has at least the rest of
/// them from any place before `n` on.
proof fn lemma_letters_counted(line: Seq<char>, n: int, i: int)
    requires
        0 <= i <= n <= line.len(),
        forall|j: int| 0 <= j < n ==> is_letter(#[trigger] line[j]),
        n == line.len() || !is_letter(line[n]),
    ensures
        letters_from(line, i) == n - i,
    decreases n - i,
{
    if i < n {
        assert(is_letter(line[i]));
        lemma_letters_counted(line, n, i + 1);
    }
}

/// A prefix and a suffix, in this order, put the text between them.
pub proof fn law_prefix_then_suffix(x: Seq<char>, p: Seq<char>, s: Seq<char>, r: Seq<char>)
    requires
        pipeline_outcome(x, seq![QuirkView::Prefix(p), QuirkView::Suffix(s)], r),
    ensures
        r == p + x + s,
{
    let quirks = seq![QuirkView::Prefix(p), QuirkView::Suffix(s)];
    let first = quirks.drop_last();
    assert(first =~= seq![QuirkView::Prefix(p)]);
    assert(first.drop_last() =~= Seq::<QuirkView>::empty());
    let mid = choose|mid: Seq<char>|
        pipeline_outcome(x, quirks.drop_last(), mid) && #[trigger] mutate_outcome(
            mid,
            quirks.last(),
            r,
        );
    let start = choose|start: Seq<char>|
        pipeline_outcome(x, first.drop_last(), start) && #[trigger] mutate_outcome(
            start,
            first.last(),
            mid,
        );
    assert(start == x);
    assert(mid == p + x);
    assert(r == mid + s);
}

/// With no quirks the text stays as it is.
pub proof fn law_no_quirks_no_change(x: Seq<char>, r: Seq<char>)
    requires
        pipeline_outcome(x, Seq::<QuirkView>::empty(), r),
    ensures
        r == x,
{
}

/// The line can only come out as it went in.
pub open spec fn stays(entries: Seq<(Seq<char>, CharacterView)>, line: Seq<char>) -> bool {
    forall|out: Seq<char>| #[trigger] routed(entries, line, out) ==> out == line
}

/// Every line but the first can only come out as it went in.
pub open spec fn later_lines_stay(
    entries: Seq<(Seq<char>, CharacterView)>,
    lines: Seq<Seq<char>>,
) -> bool {
    forall|i: int| 1 <= i < lines.len() ==> stays(entries, #[trigger] lines[i])
}

/// What is put before a text without the separator in it ends up before the
/// first piece.
proof fn lemma_split_after_prefix(pre: Seq<char>, x: Seq<char>, sep: char)
    requires
        forall|i: int| 0 <= i < pre.len() ==> pre[i] != sep,
    ensures
        split_on(pre + x, sep).len() == split_on(x, sep).len(),
        split_on(pre + x, sep)[0] == pre + split_on(x, sep)[0],
        forall|i: int|
            1 <= i < split_on(x, sep).len() ==> #[trigger] split_on(pre + x, sep)[i] == split_on(
                x,
                sep,
            )[i],
    decreases x.len(),
{
    crate::text::lemma_split_nonempty(x, sep);
    if x.len() == 0 {
        assert(pre + x =~= pre);
        lemma_split_one_piece(pre, sep);
        assert(split_on(x, sep)[0] =~= Seq::<char>::empty());
        assert(pre + split_on(x, sep)[0] =~= pre);
    } else {
        let init = x.drop_last();
        lemma_split_after_prefix(pre, init, sep);
        crate::text::lemma_split_nonempty(init, sep);
        assert((pre + x).drop_last() =~= pre + init);
        assert((pre + x).last() == x.last());
        let whole = split_on(pre + init, sep);
        let part = split_on(init, sep);
        if x.last() != sep {
            if part.len() == 1 {
                assert(whole.last().push(x.last()) =~= pre + part.last().push(x.last()));
            }
        }
    }
}

/// What is put before the first piece ends up before the joined text.
proof fn lemma_join_after_prefix(pre: Seq<char>, parts: Seq<Seq<char>>, sep: char)
    requires
        parts.len() >= 1,
    ensures
        join_with(parts.update(0, pre + parts[0]), sep) == pre + join_with(parts, sep),
    decreases parts.len(),
{
    let grown = parts.update(0, pre + parts[0]);
    if parts.len() == 1 {
    } else {
        let init = parts.drop_last();
        lemma_join_after_prefix(pre, init, sep);
        assert(grown.drop_last() =~= init.update(0, pre + init[0]));
        assert(grown.last() == parts.last());
        assert(join_with(grown, sep) =~= pre + join_with(parts, sep));
    }
}

/// A line that a registered character without quirks says comes out with
/// the character's label in place of the name, and is otherwise unchanged.
pub proof fn law_no_quirks_line_relabelled(
    entries: Seq<(Seq<char>, CharacterView)>,
    name: Seq<char>,
    c: CharacterView,
    x: Seq<char>,
    out: Seq<char>,
)
    requires
        name.len() > 0,
        forall|i: int| 0 <= i < name.len() ==> is_letter(#[trigger] name[i]),
        lookup(entries, name) == Some(c),
        c.quirks.len() == 0,
        routed(entries, name + ": "@ + x, out),
    ensures
        out == c.acronym + ": "@ + x,
{
    reveal_strlit(": ");
    let line = name + ": "@ + x;
    let n = name.len() as int;
    assert(line[n] == ':' && line[n + 1] == ' ');
    assert forall|j: int| 0 <= j < n implies is_letter(#[trigger] line[j]) by {
        assert(line[j] == name[j]);
    }
    lemma_letters_counted(line, n, 0);
    assert(line.take(n) =~= name);
    assert(line.skip(n + 2) =~= x);
    assert(speech_name(line) == Some(name));
    assert(classified(line) == LineView::Speech { name, body: x });
    assert(quirked_outcome(x, c, out));
}

/// What a registered character without quirks says comes out with the
/// character's label in place of the name, and is otherwise unchanged. This
/// is said of a text whose first line the character says, and whose later
/// lines, if there are any, can only come out as they went in.
pub proof fn law_no_quirks_only_relabel(
    entries: Seq<(Seq<char>, CharacterView)>,
    name: Seq<char>,
    c: CharacterView,
    x: Seq<char>,
    r: Seq<char>,
)
    requires
        name.len() > 0,
        forall|i: int| 0 <= i < name.len() ==> is_letter(#[trigger] name[i]),
        lookup(entries, name) == Some(c),
        c.quirks.len() == 0,
        later_lines_stay(entries, split_on(x, '\n')),
        text_outcome(entries, name + ": "@ + x, r),
    ensures
        r == c.acronym + ": "@ + x,
{
    reveal_strlit(": ");
    let pre = name + ": "@;
    let text = pre + x;
    assert forall|i: int| 0 <= i < pre.len() implies pre[i] != '\n' by {
        if i < name.len() {
            assert(is_letter(name[i]));
        }
    }
    lemma_split_after_prefix(pre, x, '\n');
    crate::text::lemma_split_nonempty(x, '\n');
    let parts = split_on(x, '\n');
    let lines = split_on(text, '\n');
    let outs = choose|outs: Seq<Seq<char>>| #[trigger]
        all_routed(entries, lines, outs) && r == join_with(outs, '\n');
    assert(routed(entries, lines[0], outs[0]));
    assert(lines[0] == name + ": "@ + parts[0]);
    law_no_quirks_line_relabelled(entries, name, c, parts[0], outs[0]);
    let label = c.acronym + ": "@;
    assert(outs[0] =~= label + parts[0]);
    assert forall|i: int| 1 <= i < lines.len() implies outs[i] == parts[i] by {
        assert(routed(entries, lines[i], outs[i]));
        assert(stays(entries, parts[i]));
    }
    assert(outs =~= parts.update(0, label + parts[0]));
    lemma_join_after_prefix(label, parts, '\n');
    lemma_join_split(x, '\n');
    assert(label + x =~= c.acronym + ": "@ + x);
}

/// In a random replacement, each occurrence of the literal is replaced by
/// one of its choices: the result is the text with its occurrences replaced
/// one by one, and every replacement is among the choices.
pub proof fn law_random_replacement_picks_choices(
    s: Seq<char>,
    from: Seq<char>,
    choices: Seq<Seq<char>>,
    r: Seq<char>,
)
    requires
        mutate_outcome(s, QuirkView::RandomReplacements(seq![(from, choices)]), r),
    ensures
        exists|picks: Seq<Seq<char>>|
            {
                &&& picks.len() == occurrences(s, from)
                &&& forall|k: int| 0 <= k < picks.len() ==> choices.contains(#[trigger] picks[k])
                &&& r == #[trigger] replaced_each(s, from, picks)
            },
{
    let plan = random_plan(seq![(from, choices)]);
    assert(plan =~= seq![(from, Source::OneOf(choices))]);
    assert(plan.drop_last() =~= Seq::<(Seq<char>, Source)>::empty());
    let mid = choose|mid: Seq<char>|
        drawn_in_turn(s, plan.drop_last(), mid) && #[trigger] drawn_outcome(
            mid,
            plan.last().0,
            plan.last().1,
            r,
        );
    assert(mid == s);
    let source = Source::OneOf(choices);
    let picks = choose|picks: Seq<Seq<char>>|
        {
            &&& picks.len() == occurrences(s, from)
            &&& forall|k: int| 0 <= k < picks.len() ==> source.yields(#[trigger] picks[k])
            &&& r == #[trigger] replaced_each(s, from, picks)
        };
    assert forall|k: int| 0 <= k < picks.len() implies choices.contains(#[trigger] picks[k]) by {
        assert(source.yields(picks[k]));
    }
}

/// A scramble of clusters has as many clusters as there were, and each as
/// often as it was there.
pub proof fn law_scramble_keeps_clusters(piece: Seq<char>, clusters: Seq<Seq<char>>)
    requires
        is_scramble_of(piece, clusters),
    ensures
        exists|order: Seq<Seq<char>>|
            {
                &&& #[trigger] is_arrangement_of(order, clusters)
                &&& order.len() == clusters.len()
                &&& order.to_multiset() == clusters.to_multiset()
                &&& piece == concat(order)
            },
{
    let order = choose|order: Seq<Seq<char>>| #[trigger]
        is_arrangement_of(order, clusters) && piece == concat(order);
    lemma_arrangement_len(order, clusters);
}

/// In a scramble, each occurrence of the target is replaced by the grapheme
/// clusters of the alphabet in some order: the result is the text with its
/// occurrences replaced one by one, and every replacement is a scramble of
/// those clusters.
pub proof fn law_scramble_permutes_clusters(
    s: Seq<char>,
    target: Seq<char>,
    alphabet: Seq<char>,
    r: Seq<char>,
)
    requires
        mutate_outcome(s, QuirkView::Scramble(seq![(target, alphabet)]), r),
    ensures
        exists|picks: Seq<Seq<char>>|
            {
                &&& picks.len() == occurrences(s, target)
                &&& forall|k: int|
                    0 <= k < picks.len() ==> is_scramble_of(
                        #[trigger] picks[k],
                        grapheme_clusters(alphabet),
                    )
                &&& r == #[trigger] replaced_each(s, target, picks)
            },
{
    let plan = scramble_plan(seq![(target, alphabet)]);
    let source = Source::Shuffled(grapheme_clusters(alphabet));
    assert(plan =~= seq![(target, source)]);
    assert(plan.drop_last() =~= Seq::<(Seq<char>, Source)>::empty());
    let mid = choose|mid: Seq<char>|
        drawn_in_turn(s, plan.drop_last(), mid) && #[trigger] drawn_outcome(
            mid,
            plan.last().0,
            plan.last().1,
            r,
        );
    assert(mid == s);
    let picks = choose|picks: Seq<Seq<char>>|
        {
            &&& picks.len() == occurrences(s, target)
            &&& forall|k: int| 0 <= k < picks.len() ==> source.yields(#[trigger] picks[k])
            &&& r == #[trigger] replaced_each(s, target, picks)
        };
    assert forall|k: int| 0 <= k < picks.len() implies is_scramble_of(
        #[trigger] picks[k],
        grapheme_clusters(alphabet),
    ) by {
        assert(source.yields(picks[k]));
    }
}

/// The name that a line is addressed to is among the names mentioned.
proof fn lemma_line_name_mentioned(lines: Seq<Seq<char>>, i: int)
    requires
        0 <= i < lines.len(),
        line_name(lines[i]) is Some,
    ensures
        mentioned_in(lines).contains(line_name(lines[i])->0),
    decreases lines.len(),
{
    let name = line_name(lines[i])->0;
    let before = mentioned_in(lines.drop_last());
    let all = mentioned_in(lines);
    if i < lines.len() - 1 {
        lemma_line_name_mentioned(lines.drop_last(), i);
        let at = choose|at: int| 0 <= at < before.len() && before[at] == name;
        assert(all[at] == name);
    } else {
        if before.contains(name) {
        } else {
            assert(all == before.push(name));
            assert(all[before.len() as int] == name);
        }
    }
}

/// A text in which no line is addressed to a registered character comes out
/// as it went in.
pub proof fn law_unregistered_text_unchanged(
    entries: Seq<(Seq<char>, CharacterView)>,
    text: Seq<char>,
    r: Seq<char>,
)
    requires
        forall|name: Seq<char>|
            mentioned(text).contains(name) ==> #[trigger] lookup(entries, name) is None,
        text_outcome(entries, text, r),
    ensures
        r == text,
{
    let lines = split_on(text, '\n');
    let outs = choose|outs: Seq<Seq<char>>| #[trigger]
        all_routed(entries, lines, outs) && r == join_with(outs, '\n');
    assert forall|i: int| 0 <= i < lines.len() implies outs[i] == lines[i] by {
        assert(routed(entries, lines[i], outs[i]));
        if line_name(lines[i]) is Some {
            lemma_line_name_mentioned(lines, i);
            assert(lookup(entries, line_name(lines[i])->0) is None);
        }
    }
    assert(outs =~= lines);
    lemma_join_split(text, '\n');
}

/// The quirk draws nothing at random.
pub open spec fn draws_nothing(q: QuirkView) -> bool {
    !(q is RandomReplacements) && !(q is Scramble)
}

/// Quirks that draw nothing at random always make the same of a text.
pub proof fn law_plain_quirks_are_deterministic(
    s: Seq<char>,
    quirks: Seq<QuirkView>,
    r1: Seq<char>,
    r2: Seq<char>,
)
    requires
        forall|i: int| 0 <= i < quirks.len() ==> draws_nothing(#[trigger] quirks[i]),
        pipeline_outcome(s, quirks, r1),
        pipeline_outcome(s, quirks, r2),
    ensures
        r1 == r2,
    decreases quirks.len(),
{
    if quirks.len() > 0 {
        let mid1 = choose|mid: Seq<char>|
            pipeline_outcome(s, quirks.drop_last(), mid) && #[trigger] mutate_outcome(
                mid,
                quirks.last(),
                r1,
            );
        let mid2 = choose|mid: Seq<char>|
            pipeline_outcome(s, quirks.drop_last(), mid) && #[trigger] mutate_outcome(
                mid,
                quirks.last(),
                r2,
            );
        assert forall|i: int| 0 <= i < quirks.drop_last().len() implies draws_nothing(
            #[trigger] quirks.drop_last()[i],
        ) by {
            assert(quirks.drop_last()[i] == quirks[i]);
        }
        law_plain_quirks_are_deterministic(s, quirks.drop_last(), mid1, mid2);
        assert(draws_nothing(quirks[quirks.len() - 1]));
    }
}

} // verus!
