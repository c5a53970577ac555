//! Occurrences of a literal in a text, and their replacement.
//!
//! A text is searched from left to right, and occurrences do not overlap: after
//! one is found the search goes on behind it. The empty literal occurs before
//! every character and once more at the end.

use vstd::prelude::*;
use crate::text::{append_chars, chars_of, string_of};

verus! {

/// `from` stands in `s` at position `i`.
pub open spec fn matches_at(s: Seq<char>, from: Seq<char>, i: int) -> bool {
    0 <= i && i + from.len() <= s.len() && s.subrange(i, i + from.len()) == from
}

/// How many occurrences of `from` the search finds in `s` from position `i` on.
pub open spec fn occurrences_from(s: Seq<char>, from: Seq<char>, i: int) -> nat
    decreases s.len() - i,
{
    if i < 0 || i > s.len() {
        0
    } else if matches_at(s, from, i) {
        if i == s.len() {
            1
        } else if from.len() == 0 {
            1 + occurrences_from(s, from, i + 1)
        } else {
            1 + occurrences_from(s, from, i + from.len())
        }
    } else if i == s.len() {
        0
    } else {
        occurrences_from(s, from, i + 1)
    }
}

/// How many occurrences of `from` the search finds in `s`.
pub open spec fn occurrences(s: Seq<char>, from: Seq<char>) -> nat {
    occurrences_from(s, from, 0)
}

/// `s` from position `i` on, with the occurrences of `from` replaced in turn
/// by `reps[k]`, `reps[k + 1]` and so on.
pub open spec fn replaced_each_from(
    s: Seq<char>,
    from: Seq<char>,
    reps: Seq<Seq<char>>,
    i: int,
    k: int,
) -> Seq<char>
    decreases s.len() - i,
{
    if i < 0 || i > s.len() {
        Seq::<char>::empty()
    } else if matches_at(s, from, i) {
        if i == s.len() {
            reps[k]
        } else if from.len() == 0 {
            reps[k].push(s[i]) + replaced_each_from(s, from, reps, i + 1, k + 1)
        } else {
            reps[k] + replaced_each_from(s, from, reps, i + from.len(), k + 1)
        }
    } else if i == s.len() {
        Seq::<char>::empty()
    } else {
        seq![s[i]] + replaced_each_from(s, from, reps, i + 1, k)
    }
}

/// `s` with its occurrences of `from` replaced one by one: the first by
/// `reps[0]`, the second by `reps[1]` and so on.
pub open spec fn replaced_each(s: Seq<char>, from: Seq<char>, reps: Seq<Seq<char>>) -> Seq<char> {
    replaced_each_from(s, from, reps, 0, 0)
}

/// `s` with every occurrence of `from` replaced by `to`.
pub open spec fn replaced(s: Seq<char>, from: Seq<char>, to: Seq<char>) -> Seq<char> {
    replaced_each(s, from, Seq::new(occurrences(s, from), |k: int| to))
}

/// `full` begins with `picks`.
pub open spec fn begins_with(full: Seq<Seq<char>>, picks: Seq<Seq<char>>) -> bool {
    picks.len() <= full.len() && forall|j: int| 0 <= j < picks.len() ==> full[j] == picks[j]
}

/// Tells whether `from` stands in `s` at position `i`.
pub fn starts_at(s: &Vec<char>, from: &Vec<char>, i: usize) -> (found: bool)
    requires
        i <= s.len(),
    ensures
        found == matches_at(s@, from@, i as int),
{
    if from.len() > s.len() - i {
        return false;
    }
    let mut j: usize = 0;
    while j < from.len()
        invariant
            j <= from.len(),
            i + from.len() <= s.len(),
            s@.subrange(i as int, i + j) == from@.take(j as int),
        decreases from.len() - j,
    {
        if s[i + j] != from[j] {
            proof {
                let whole = s@.subrange(i as int, i + from.len());
                assert(whole[j as int] == s@[i + j]);
            }
            return false;
        }
        proof {
            assert(s@.subrange(i as int, i + j + 1) =~= s@.subrange(i as int, i + j).push(
                s@[i + j],
            ));
            assert(from@.take(j + 1) =~= from@.take(j as int).push(from@[j as int]));
        }
        j = j + 1;
    }
    proof {
        assert(from@.take(from.len() as int) =~= from@);
    }
    true
}

/// A text in which the occurrences of a literal are replaced one after
/// another, each by a text that is handed in when the occurrence is found.
///
/// `find_next` looks for the next occurrence, `replace_with` replaces the
/// one that was found, and `finish` hands out the result once `find_next`
/// has found no more.
pub struct Substitution {
    text: Vec<char>,
    literal: Vec<char>,
    /// Where the search goes on.
    pos: usize,
    /// An occurrence stands at `pos` and waits to be replaced.
    found: bool,
    /// The end of the text is behind, and any occurrence there too.
    finished: bool,
    /// What is written so far.
    out: Vec<char>,
    /// The replacements so far.
    picks: Ghost<Seq<Seq<char>>>,
}

impl Substitution {
    /// The text that is searched.
    pub closed spec fn text(&self) -> Seq<char> {
        self.text@
    }

    /// The literal that is looked for.
    pub closed spec fn literal(&self) -> Seq<char> {
        self.literal@
    }

    /// The replacements so far, in order.
    pub closed spec fn replaced(&self) -> Seq<Seq<char>> {
        self.picks@
    }

    /// An occurrence was found and waits to be replaced.
    pub closed spec fn pending(&self) -> bool {
        self.found
    }

    /// The search has come to the end of the text.
    pub closed spec fn done(&self) -> bool {
        self.finished
    }

    /// What is left to write, for a list of replacements.
    closed spec fn rest(&self, full: Seq<Seq<char>>) -> Seq<char> {
        if self.finished {
            Seq::<char>::empty()
        } else {
            replaced_each_from(
                self.text@,
                self.literal@,
                full,
                self.pos as int,
                self.picks@.len() as int,
            )
        }
    }

    /// How many occurrences are left.
    closed spec fn left(&self) -> nat {
        if self.finished {
            0
        } else {
            occurrences_from(self.text@, self.literal@, self.pos as int)
        }
    }

    /// What is written and what is left make up the result, whatever the
    /// replacements to come are.
    pub closed spec fn wf(&self) -> bool {
        &&& self.pos <= self.text@.len()
        &&& self.found ==> !self.finished && matches_at(
            self.text@,
            self.literal@,
            self.pos as int,
        )
        &&& self.finished ==> self.pos == self.text@.len()
        &&& self.picks@.len() + self.left() == occurrences(self.text@, self.literal@)
        &&& forall|full: Seq<Seq<char>>| #[trigger]
            begins_with(full, self.picks@) ==> replaced_each(self.text@, self.literal@, full)
                == self.out@ + self.rest(full)
    }

    /// Begins the replacement of `literal` in `text`.
    pub fn new(text: &str, literal: &str) -> (sub: Substitution)
        ensures
            sub.wf(),
            sub.text() == text@,
            sub.literal() == literal@,
            sub.replaced() == Seq::<Seq<char>>::empty(),
            !sub.pending(),
            !sub.done(),
    {
        let sub = Substitution {
            text: chars_of(text),
            literal: chars_of(literal),
            pos: 0,
            found: false,
            finished: false,
            out: Vec::new(),
            picks: Ghost(Seq::empty()),
        };
        proof {
            assert forall|full: Seq<Seq<char>>| #[trigger]
                begins_with(full, sub.picks@) implies replaced_each(sub.text@, sub.literal@, full)
                == sub.out@ + sub.rest(full) by {
                assert(sub.out@ + sub.rest(full) =~= sub.rest(full));
            }
        }
        sub
    }

    /// Looks for the next occurrence and tells whether there is one. What
    /// stands before it is written as it is.
    pub fn find_next(&mut self) -> (found: bool)
        requires
            old(self).wf(),
            !old(self).pending(),
        ensures
            final(self).wf(),
            final(self).text() == old(self).text(),
            final(self).literal() == old(self).literal(),
            final(self).replaced() == old(self).replaced(),
            final(self).pending() == found,
            final(self).done() == !found,
            found == (old(self).replaced().len() < occurrences(
                old(self).text(),
                old(self).literal(),
            )),
    {
        if self.finished {
            return false;
        }
        while self.pos < self.text.len()
            invariant
                self.wf(),
                !self.found,
                !self.finished,
                self.text == old(self).text,
                self.literal == old(self).literal,
                self.picks == old(self).picks,
            decreases self.text.len() - self.pos,
        {
            if starts_at(&self.text, &self.literal, self.pos) {
                self.found = true;
                return true;
            }
            let ghost before = *self;
            self.out.push(self.text[self.pos]);
            self.pos = self.pos + 1;
            proof {
                assert forall|full: Seq<Seq<char>>| #[trigger]
                    begins_with(full, self.picks@) implies replaced_each(
                    self.text@,
                    self.literal@,
                    full,
                ) == self.out@ + self.rest(full) by {
                    assert(before.rest(full) == seq![self.text@[before.pos as int]] + self.rest(
                        full,
                    ));
                    assert(before.out@ + before.rest(full) =~= self.out@ + self.rest(full));
                }
            }
        }
        if self.literal.len() == 0 {
            proof {
                assert(self.text@.subrange(self.pos as int, self.pos as int) =~= self.literal@);
            }
            self.found = true;
            true
        } else {
            let ghost before = *self;
            self.finished = true;
            proof {
                assert forall|full: Seq<Seq<char>>| #[trigger]
                    begins_with(full, self.picks@) implies replaced_each(
                    self.text@,
                    self.literal@,
                    full,
                ) == self.out@ + self.rest(full) by {
                    assert(before.rest(full) =~= self.rest(full));
                }
            }
            false
        }
    }

    /// Replaces the occurrence that was found by `piece`, and goes on behind it.
    pub fn replace_with(&mut self, piece: &str)
        requires
            old(self).wf(),
            old(self).pending(),
        ensures
            final(self).wf(),
            final(self).text() == old(self).text(),
            final(self).literal() == old(self).literal(),
            final(self).replaced() == old(self).replaced().push(piece@),
            !final(self).pending(),
    {
        let ghost before = *self;
        let chars = chars_of(piece);
        append_chars(&mut self.out, &chars);
        proof {
            self.picks@ = self.picks@.push(piece@);
        }
        if self.pos == self.text.len() {
            self.finished = true;
        } else if self.literal.len() == 0 {
            self.out.push(self.text[self.pos]);
            self.pos = self.pos + 1;
        } else {
            self.pos = self.pos + self.literal.len();
        }
        self.found = false;
        proof {
            assert forall|full: Seq<Seq<char>>| #[trigger]
                begins_with(full, self.picks@) implies replaced_each(
                self.text@,
                self.literal@,
                full,
            ) == self.out@ + self.rest(full) by {
                assert(begins_with(full, before.picks@));
                assert(full[before.picks@.len() as int] == piece@);
                if before.pos == before.text@.len() {
                    assert(before.rest(full) == piece@);
                    assert(before.out@ + before.rest(full) =~= self.out@ + self.rest(full));
                } else if before.literal@.len() == 0 {
                    assert(before.rest(full) == piece@.push(before.text@[before.pos as int])
                        + self.rest(full));
                    assert(before.out@ + before.rest(full) =~= self.out@ + self.rest(full));
                } else {
                    assert(before.rest(full) == piece@ + self.rest(full));
                    assert(before.out@ + before.rest(full) =~= self.out@ + self.rest(full));
                }
            }
        }
    }

    /// The text with every occurrence replaced, once no more is found.
    pub fn finish(self) -> (r: String)
        requires
            self.wf(),
            self.done(),
        ensures
            r@ == replaced_each(self.text(), self.literal(), self.replaced()),
            self.replaced().len() == occurrences(self.text(), self.literal()),
    {
        proof {
            assert(begins_with(self.picks@, self.picks@));
            assert(self.out@ + self.rest(self.picks@) =~= self.out@);
        }
        string_of(&self.out)
    }
}

/// Replaces every occurrence of `from` in `s` by `to`.
pub fn replace_all(s: &str, from: &str, to: &str) -> (r: String)
    ensures
        r@ == replaced(s@, from@, to@),
{
    let mut sub = Substitution::new(s, from);
    while sub.find_next()
        invariant
            sub.wf(),
            !sub.pending(),
            sub.text() == s@,
            sub.literal() == from@,
            sub.replaced().len() <= occurrences(s@, from@),
            forall|k: int| 0 <= k < sub.replaced().len() ==> sub.replaced()[k] == to@,
        ensures
            sub.wf(),
            sub.done(),
            sub.text() == s@,
            sub.literal() == from@,
            forall|k: int| 0 <= k < sub.replaced().len() ==> sub.replaced()[k] == to@,
        decreases occurrences(s@, from@) - sub.replaced().len(),
    {
        sub.replace_with(to);
    }
    let ghost picks = sub.replaced();
    let r = sub.finish();
    proof {
        assert(picks =~= Seq::new(occurrences(s@, from@), |k: int| to@));
    }
    r
}

} // verus!
