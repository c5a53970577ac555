//! Replacement of the occurrences of a literal by texts drawn at random, a
//! new one for each occurrence.
//!
//! Which text is drawn is not known beforehand. What is known is where the
//! texts come from, and the contracts say that much: every occurrence is
//! replaced, and each by a text that its source can yield.

use vstd::prelude::*;
use crate::chance::{is_arrangement_of, lemma_arrangement_texts, pick_one, shuffle};
use crate::literal::{occurrences, replaced_each, Substitution};
use crate::text::{concat, texts};
use vstd::string::StringExecFns;

verus! {

/// Where the text for an occurrence comes from.
pub enum Source {
    /// It is one of these texts.
    OneOf(Seq<Seq<char>>),
    /// It is these clusters in some order, put together.
    Shuffled(Seq<Seq<char>>),
}

/// `piece` is the clusters in some order, put together: none left out, none
/// added, none cut.
pub open spec fn is_scramble_of(piece: Seq<char>, clusters: Seq<Seq<char>>) -> bool {
    exists|order: Seq<Seq<char>>| #[trigger]
        is_arrangement_of(order, clusters) && piece == concat(order)
}

impl Source {
    /// The source can yield `piece`.
    pub open spec fn yields(self, piece: Seq<char>) -> bool {
        match self {
            Source::OneOf(choices) => choices.contains(piece),
            Source::Shuffled(clusters) => is_scramble_of(piece, clusters),
        }
    }
}

/// The occurrences of `from` in `s` were replaced, each by a text that
/// `source` yields, and `r` is what came of it.
pub open spec fn drawn_outcome(s: Seq<char>, from: Seq<char>, source: Source, r: Seq<char>) -> bool {
    exists|picks: Seq<Seq<char>>|
        {
            &&& picks.len() == occurrences(s, from)
            &&& forall|k: int| 0 <= k < picks.len() ==> source.yields(#[trigger] picks[k])
            &&& r == #[trigger] replaced_each(s, from, picks)
        }
}

/// What texts are drawn from.
pub(crate) enum Draw<'a> {
    /// One of these, picked anew each time.
    OneOf(&'a Vec<String>),
    /// These, shuffled anew each time and put together.
    Shuffled(Vec<String>),
}

impl<'a> Draw<'a> {
    /// What is drawn from holds what `source` says.
    pub(crate) open spec fn stands_for(&self, source: Source) -> bool {
        match (self, source) {
            (Draw::OneOf(choices), Source::OneOf(listed)) => texts(choices@) == listed
                && listed.len() > 0,
            (Draw::Shuffled(deck), Source::Shuffled(clusters)) => is_arrangement_of(
                texts(deck@),
                clusters,
            ),
            _ => false,
        }
    }

    /// Draws the text for one occurrence.
    pub(crate) fn next(&mut self, Ghost(source): Ghost<Source>) -> (piece: String)
        requires
            old(self).stands_for(source),
        ensures
            final(self).stands_for(source),
            source.yields(piece@),
    {
        match self {
            Draw::OneOf(choices) => {
                let choice = pick_one(choices).unwrap();
                proof {
                    let at = choose|i: int| 0 <= i < choices@.len() && choices@[i] == *choice;
                    assert(texts(choices@)[at] == choice@);
                }
                choice.clone()
            },
            Draw::Shuffled(deck) => {
                let ghost before = deck@;
                shuffle(deck);
                proof {
                    lemma_arrangement_texts(deck@, before);
                }
                put_together(deck)
            },
        }
    }
}

/// The texts one after another.
fn put_together(pieces: &Vec<String>) -> (out: String)
    ensures
        out@ == concat(texts(pieces@)),
{
    let mut out = String::new();
    let mut i: usize = 0;
    while i < pieces.len()
        invariant
            i <= pieces.len(),
            out@ == concat(texts(pieces@).take(i as int)),
        decreases pieces.len() - i,
    {
        proof {
            assert(texts(pieces@).take(i + 1).drop_last() =~= texts(pieces@).take(i as int));
            assert(texts(pieces@).take(i + 1).last() == pieces@[i as int]@);
        }
        out.append(pieces[i].as_str());
        i = i + 1;
    }
    proof {
        assert(texts(pieces@).take(pieces@.len() as int) =~= texts(pieces@));
    }
    out
}

/// Replaces every occurrence of `from` in `s` by a text drawn for it.
pub(crate) fn replace_drawn(
    s: &str,
    from: &str,
    draw: &mut Draw,
    Ghost(source): Ghost<Source>,
) -> (r: String)
    requires
        old(draw).stands_for(source),
    ensures
        final(draw).stands_for(source),
        drawn_outcome(s@, from@, source, r@),
{
    let mut sub = Substitution::new(s, from);
    while sub.find_next()
        invariant
            sub.wf(),
            !sub.pending(),
            sub.text() == s@,
            sub.literal() == from@,
            draw.stands_for(source),
            sub.replaced().len() <= occurrences(s@, from@),
            forall|k: int|
                0 <= k < sub.replaced().len() ==> source.yields(#[trigger] sub.replaced()[k]),
        ensures
            sub.wf(),
            sub.done(),
            sub.text() == s@,
            sub.literal() == from@,
            draw.stands_for(source),
            forall|k: int|
                0 <= k < sub.replaced().len() ==> source.yields(#[trigger] sub.replaced()[k]),
        decreases occurrences(s@, from@) - sub.replaced().len(),
    {
        let piece = draw.next(Ghost(source));
        sub.replace_with(piece.as_str());
    }
    sub.finish()
}

} // verus!
