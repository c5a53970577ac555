//! Removal of `//` and nestable `/* */` comments from a JSON document, so
//! that an ordinary JSON parser can read it.
//!
//! The document is read once, character by character. What is carried along
//! is whether the reader stands inside a string, how deep it stands in block
//! comments, and the one character that was read but not yet written: a `/`
//! or `*` may turn out to be the first half of a comment mark.
//!
//! Escapes inside strings are judged by the one character before a `"` only,
//! so `"\\"` is read as a string that does not end there.

use vstd::prelude::*;
use crate::text::{chars_of, string_of, split_on};

verus! {

/// What the reader knows after some prefix of the document.
pub struct Scan {
    /// The reader stands inside a string.
    pub in_string: bool,
    /// How many block comments are open.
    pub depth: nat,
    /// The character read last, where it has not been written yet.
    pub pending: Option<char>,
    /// A line comment has begun on this line: the rest of it is dropped.
    pub skipping: bool,
    /// What has been written.
    pub out: Seq<char>,
}

/// The reader before the first character.
pub open spec fn start() -> Scan {
    Scan { in_string: false, depth: 0, pending: None, skipping: false, out: Seq::empty() }
}

/// `out`, followed by two spaces where positions are kept.
pub open spec fn marked(out: Seq<char>, preserve: bool) -> Seq<char> {
    if preserve {
        out.push(' ').push(' ')
    } else {
        out
    }
}

/// What has been written once the pending character is dealt with: outside
/// comments it is written, inside it becomes a space where positions are kept.
pub open spec fn flushed(st: Scan, preserve: bool) -> Seq<char> {
    match st.pending {
        None => st.out,
        Some(p) => if st.depth == 0 {
            st.out.push(p)
        } else if preserve {
            st.out.push(' ')
        } else {
            st.out
        },
    }
}

/// `s` without the spaces at its end.
pub open spec fn trim_spaces(s: Seq<char>) -> Seq<char>
    decreases s.len(),
{
    if s.len() > 0 && s.last() == ' ' {
        trim_spaces(s.drop_last())
    } else {
        s
    }
}

/// The reader after a character other than a line feed, on a line that no
/// line comment has cut short.
pub open spec fn scan_char(st: Scan, c: char, preserve: bool) -> Scan {
    if !st.in_string && st.depth == 0 && st.pending == Some('/') && c == '/' {
        Scan { pending: None, skipping: true, out: marked(st.out, preserve), ..st }
    } else if !st.in_string && st.pending == Some('/') && c == '*' {
        Scan { depth: st.depth + 1, pending: None, out: marked(st.out, preserve), ..st }
    } else if !st.in_string && st.pending == Some('*') && c == '/' {
        Scan {
            depth: if st.depth > 0 { (st.depth - 1) as nat } else { 0 },
            pending: None,
            out: marked(st.out, preserve),
            ..st
        }
    } else {
        Scan {
            in_string: if st.depth == 0 && st.pending != Some('\\') && c == '"' {
                !st.in_string
            } else {
                st.in_string
            },
            pending: Some(c),
            out: flushed(st, preserve),
            ..st
        }
    }
}

/// The reader at the end of a line: the line loses the spaces at its end and
/// gets its line feed.
pub open spec fn end_line(st: Scan, preserve: bool) -> Scan {
    Scan {
        pending: None,
        skipping: false,
        out: trim_spaces(flushed(st, preserve)).push('\n'),
        ..st
    }
}

/// The reader after one more character.
pub open spec fn step(st: Scan, c: char, preserve: bool) -> Scan {
    if c == '\n' {
        end_line(st, preserve)
    } else if st.skipping {
        st
    } else {
        scan_char(st, c, preserve)
    }
}

/// The reader after all of `text`.
pub open spec fn scan(text: Seq<char>, preserve: bool) -> Scan
    decreases text.len(),
{
    if text.len() == 0 {
        start()
    } else {
        step(scan(text.drop_last(), preserve), text.last(), preserve)
    }
}

/// The document without its comments. Every line of it, the last one too,
/// ends in a line feed.
pub open spec fn stripped(text: Seq<char>, preserve: bool) -> Seq<char> {
    end_line(scan(text, preserve), preserve).out
}

/// No more block comments are open than characters were read.
pub proof fn lemma_depth_bounded(text: Seq<char>, preserve: bool)
    ensures
        scan(text, preserve).depth <= text.len(),
    decreases text.len(),
{
    if text.len() > 0 {
        lemma_depth_bounded(text.drop_last(), preserve);
    }
}

/// Takes a JSON document with comments and returns it without them.
///
/// With `preserve_locations`, every character of a comment is replaced by a
/// space, so that what stays keeps its line and column; without it, comments
/// are left out. Either way each line loses the spaces at its end.
pub fn strip_jsonc_comments(jsonc_input: &str, preserve_locations: bool) -> (json_output: String)
    ensures
        json_output@ == stripped(jsonc_input@, preserve_locations),
{
    let input = chars_of(jsonc_input);
    let mut out: Vec<char> = Vec::new();
    let mut in_string = false;
    let mut depth: usize = 0;
    let mut pending: Option<char> = None;
    let mut skipping = false;
    let mut i: usize = 0;
    while i < input.len()
        invariant
            i <= input.len(),
            scan(input@.take(i as int), preserve_locations) == (Scan {
                in_string,
                depth: depth as nat,
                pending,
                skipping,
                out: out@,
            }),
        decreases input.len() - i,
    {
        proof {
            assert(input@.take(i + 1).drop_last() =~= input@.take(i as int));
            lemma_depth_bounded(input@.take(i as int), preserve_locations);
        }
        let c = input[i];
        if c == '\n' {
            finish_line(&mut out, pending, depth, preserve_locations);
            pending = None;
            skipping = false;
        } else if !skipping {
            if !in_string && depth == 0 && pending == Some('/') && c == '/' {
                mark(&mut out, preserve_locations);
                pending = None;
                skipping = true;
            } else if !in_string && pending == Some('/') && c == '*' {
                mark(&mut out, preserve_locations);
                depth = depth + 1;
                pending = None;
            } else if !in_string && pending == Some('*') && c == '/' {
                mark(&mut out, preserve_locations);
                if depth > 0 {
                    depth = depth - 1;
                }
                pending = None;
            } else {
                if depth == 0 && pending != Some('\\') && c == '"' {
                    in_string = !in_string;
                }
                flush(&mut out, pending, depth, preserve_locations);
                pending = Some(c);
            }
        }
        i = i + 1;
    }
    proof {
        assert(input@.take(input.len() as int) =~= input@);
    }
    finish_line(&mut out, pending, depth, preserve_locations);
    string_of(&out)
}

/// Writes the two spaces that stand for a comment mark.
fn mark(out: &mut Vec<char>, preserve: bool)
    ensures
        final(out)@ == marked(old(out)@, preserve),
{
    if preserve {
        out.push(' ');
        out.push(' ');
    }
}

/// Deals with the pending character.
fn flush(out: &mut Vec<char>, pending: Option<char>, depth: usize, preserve: bool)
    ensures
        final(out)@ == flushed(
            Scan {
                in_string: false,
                depth: depth as nat,
                pending,
                skipping: false,
                out: old(out)@,
            },
            preserve,
        ),
{
    match pending {
        None => {},
        Some(p) => {
            if depth == 0 {
                out.push(p);
            } else if preserve {
                out.push(' ');
            }
        },
    }
}

/// Ends the line: deals with the pending character, drops the spaces at the
/// end and writes the line feed.
fn finish_line(out: &mut Vec<char>, pending: Option<char>, depth: usize, preserve: bool)
    ensures
        final(out)@ == end_line(
            Scan {
                in_string: false,
                depth: depth as nat,
                pending,
                skipping: false,
                out: old(out)@,
            },
            preserve,
        ).out,
{
    flush(out, pending, depth, preserve);
    let ghost written = out@;
    while out.len() > 0 && out[out.len() - 1] == ' '
        invariant
            trim_spaces(out@) == trim_spaces(written),
        decreases out.len(),
    {
        out.pop();
    }
    out.push('\n');
}

/// The two characters are a comment mark: `//`, `/*` or `*/`.
pub open spec fn is_comment_mark(a: char, b: char) -> bool {
    (a == '/' && (b == '/' || b == '*')) || (a == '*' && b == '/')
}

/// Nowhere in `text` does a comment mark stand.
pub open spec fn comment_free(text: Seq<char>) -> bool {
    forall|i: int| 0 <= i < text.len() - 1 ==> !is_comment_mark(#[trigger] text[i], text[i + 1])
}

/// Each line without the spaces at its end, and with a line feed after it.
pub open spec fn trimmed_lines(lines: Seq<Seq<char>>) -> Seq<char>
    decreases lines.len(),
{
    if lines.len() == 0 {
        Seq::<char>::empty()
    } else {
        trimmed_lines(lines.drop_last()) + trim_spaces(lines.last()).push('\n')
    }
}

/// Spaces are trimmed from the last line only: what stands before it is
/// empty or ends in something other than a space.
proof fn lemma_trim_last_line(done: Seq<char>, line: Seq<char>)
    requires
        done.len() == 0 || done.last() != ' ',
    ensures
        trim_spaces(done + line) == done + trim_spaces(line),
    decreases line.len(),
{
    if line.len() == 0 {
        assert(done + line =~= done);
        assert(done + trim_spaces(line) =~= done);
    } else if line.last() == ' ' {
        assert((done + line).drop_last() =~= done + line.drop_last());
        lemma_trim_last_line(done, line.drop_last());
    } else {
        assert((done + line).last() == line.last());
    }
}

/// Finished lines end in a line feed.
proof fn lemma_trimmed_lines_end(lines: Seq<Seq<char>>)
    ensures
        trimmed_lines(lines).len() == 0 || trimmed_lines(lines).last() == '\n',
{
}

/// On a document without comment marks the reader never enters a comment,
/// and has written every character but the pending one.
proof fn lemma_scan_comment_free(text: Seq<char>, preserve: bool)
    requires
        comment_free(text),
    ensures
        scan(text, preserve).depth == 0,
        !scan(text, preserve).skipping,
        scan(text, preserve).pending == (if text.len() > 0 && text.last() != '\n' {
            Some(text.last())
        } else {
            None
        }),
        flushed(scan(text, preserve), preserve) == trimmed_lines(
            split_on(text, '\n').drop_last(),
        ) + split_on(text, '\n').last(),
    decreases text.len(),
{
    let lines = split_on(text, '\n');
    if text.len() == 0 {
        assert(lines.drop_last() =~= Seq::<Seq<char>>::empty());
        assert(trimmed_lines(lines.drop_last()) + lines.last() =~= Seq::<char>::empty());
    } else {
        let init = text.drop_last();
        let c = text.last();
        assert(comment_free(init)) by {
            assert forall|i: int| 0 <= i < init.len() - 1 implies !is_comment_mark(
                #[trigger] init[i],
                init[i + 1],
            ) by {
                assert(init[i] == text[i] && init[i + 1] == text[i + 1]);
            }
        }
        lemma_scan_comment_free(init, preserve);
        crate::text::lemma_split_nonempty(init, '\n');
        let before = scan(init, preserve);
        let lines0 = split_on(init, '\n');
        let done0 = trimmed_lines(lines0.drop_last());
        if c == '\n' {
            lemma_trimmed_lines_end(lines0.drop_last());
            lemma_trim_last_line(done0, lines0.last());
            assert(lines.drop_last() =~= lines0);
            assert(lines.last() =~= Seq::<char>::empty());
            assert(trimmed_lines(lines0) + lines.last() =~= trimmed_lines(lines0));
        } else {
            if init.len() > 0 && init.last() != '\n' {
                assert(init.last() == text[text.len() - 2]);
                assert(!is_comment_mark(text[text.len() - 2], text[text.len() - 2 + 1]));
            }
            assert(lines.drop_last() =~= lines0.drop_last());
            assert(lines.last() == lines0.last().push(c));
            assert((done0 + lines0.last()).push(c) =~= done0 + lines0.last().push(c));
        }
    }
}

/// On a document in which no `//`, `/*` or `*/` stands, stripping changes
/// nothing but the ends of lines: each line loses the spaces at its end and
/// ends in a line feed.
pub proof fn law_strip_keeps_comment_free_text(text: Seq<char>, preserve: bool)
    requires
        comment_free(text),
    ensures
        stripped(text, preserve) == trimmed_lines(split_on(text, '\n')),
{
    lemma_scan_comment_free(text, preserve);
    crate::text::lemma_split_nonempty(text, '\n');
    let lines = split_on(text, '\n');
    lemma_trimmed_lines_end(lines.drop_last());
    lemma_trim_last_line(trimmed_lines(lines.drop_last()), lines.last());
}

/// `kept` is what may be left of `line`: it is no longer, and at each of its
/// places stands the character of `line` or a space.
pub open spec fn overlays(kept: Seq<char>, line: Seq<char>) -> bool {
    kept.len() <= line.len() && forall|j: int|
        0 <= j < kept.len() ==> (#[trigger] kept[j]) == line[j] || kept[j] == ' '
}

/// There is one of `kept` for each of `lines`, and it is what may be left of it.
pub open spec fn all_overlay(kept: Seq<Seq<char>>, lines: Seq<Seq<char>>) -> bool {
    kept.len() == lines.len() && forall|k: int|
        0 <= k < lines.len() ==> overlays(#[trigger] kept[k], lines[k])
}

/// A character other than the separator makes the last piece longer.
proof fn lemma_split_push(s: Seq<char>, x: char, sep: char)
    requires
        x != sep,
    ensures
        split_on(s.push(x), sep) == split_on(s, sep).drop_last().push(
            split_on(s, sep).last().push(x),
        ),
{
    assert(s.push(x).drop_last() =~= s);
}

/// The separator begins a new piece.
proof fn lemma_split_push_separator(s: Seq<char>, sep: char)
    ensures
        split_on(s.push(sep), sep) == split_on(s, sep).push(Seq::<char>::empty()),
{
    assert(s.push(sep).drop_last() =~= s);
}

/// Trimming leaves the beginning as it is.
proof fn lemma_trim_is_prefix(s: Seq<char>)
    ensures
        trim_spaces(s).len() <= s.len(),
        forall|j: int| 0 <= j < trim_spaces(s).len() ==> #[trigger] trim_spaces(s)[j] == s[j],
    decreases s.len(),
{
    if s.len() > 0 && s.last() == ' ' {
        lemma_trim_is_prefix(s.drop_last());
    }
}

/// Trimming the spaces at the end of a text trims its last line.
proof fn lemma_split_trim(s: Seq<char>)
    ensures
        split_on(trim_spaces(s), '\n') == split_on(s, '\n').drop_last().push(
            trim_spaces(split_on(s, '\n').last()),
        ),
    decreases s.len(),
{
    crate::text::lemma_split_nonempty(s, '\n');
    let lines = split_on(s, '\n');
    if s.len() > 0 && s.last() == ' ' {
        let init = s.drop_last();
        crate::text::lemma_split_nonempty(init, '\n');
        lemma_split_trim(init);
        let before = split_on(init, '\n');
        assert(lines.last() == before.last().push(' '));
        assert(before.last().push(' ').drop_last() =~= before.last());
        assert(lines.drop_last() =~= before.drop_last());
    } else {
        if s.len() > 0 && s.last() != '\n' {
            let before = split_on(s.drop_last(), '\n');
            assert(lines.last() == before.last().push(s.last()));
        }
        assert(trim_spaces(lines.last()) == lines.last());
        assert(lines.drop_last().push(lines.last()) =~= lines);
    }
}

/// With positions kept, what is written lies line by line under what was
/// read, and what is yet to be written will stand in its column.
proof fn lemma_scan_keeps_positions(text: Seq<char>)
    ensures
        all_overlay(split_on(scan(text, true).out, '\n'), split_on(text, '\n')),
        !scan(text, true).skipping ==> split_on(scan(text, true).out, '\n').last().len() + (
        if scan(text, true).pending is Some {
            1int
        } else {
            0int
        }) == split_on(text, '\n').last().len(),
        scan(text, true).pending is Some ==> split_on(text, '\n').last().len() > 0
            && scan(text, true).pending == Some(split_on(text, '\n').last().last())
            && scan(text, true).pending != Some('\n'),
        scan(text, true).skipping ==> scan(text, true).pending is None,
    decreases text.len(),
{
    let st = scan(text, true);
    let lines = split_on(text, '\n');
    let kept = split_on(st.out, '\n');
    if text.len() == 0 {
        assert(kept =~= lines);
    } else {
        let init = text.drop_last();
        let c = text.last();
        lemma_scan_keeps_positions(init);
        crate::text::lemma_split_nonempty(init, '\n');
        let st0 = scan(init, true);
        let lines0 = split_on(init, '\n');
        let kept0 = split_on(st0.out, '\n');
        crate::text::lemma_split_nonempty(st0.out, '\n');
        let cur = lines0.last();
        let written = flushed(st0, true);
        let kept_written = split_on(written, '\n');
        // what is written once the pending character is dealt with
        assert(all_overlay(kept_written, lines0) && (!st0.skipping ==> kept_written.last().len()
            == cur.len())) by {
            match st0.pending {
                None => {},
                Some(p) => {
                    let x = if st0.depth == 0 {
                        p
                    } else {
                        ' '
                    };
                    assert(written == st0.out.push(x));
                    lemma_split_push(st0.out, x, '\n');
                    let grown = kept0.last().push(x);
                    assert(overlays(grown, cur)) by {
                        assert forall|j: int| 0 <= j < grown.len() implies (#[trigger] grown[j])
                            == cur[j] || grown[j] == ' ' by {
                            if j < kept0.last().len() {
                                assert(grown[j] == kept0.last()[j]);
                            }
                        }
                    }
                    assert forall|k: int| 0 <= k < lines0.len() implies overlays(
                        #[trigger] kept_written[k],
                        lines0[k],
                    ) by {
                        if k < lines0.len() - 1 {
                            assert(kept_written[k] == kept0[k]);
                        }
                    }
                },
            }
        }
        if c == '\n' {
            lemma_split_trim(written);
            lemma_trim_is_prefix(kept_written.last());
            lemma_split_push_separator(trim_spaces(written), '\n');
            crate::text::lemma_split_nonempty(written, '\n');
            let trimmed = split_on(trim_spaces(written), '\n');
            assert(st.out == trim_spaces(written).push('\n'));
            assert(kept == trimmed.push(Seq::<char>::empty()));
            assert(lines == lines0.push(Seq::<char>::empty()));
            assert forall|k: int| 0 <= k < lines.len() implies overlays(
                #[trigger] kept[k],
                lines[k],
            ) by {
                if k < lines0.len() - 1 {
                    assert(kept[k] == kept_written[k]);
                    assert(overlays(kept_written[k], lines0[k]));
                } else if k == lines0.len() - 1 {
                    assert(kept[k] == trim_spaces(kept_written.last()));
                    assert(overlays(kept_written[k], lines0[k]));
                    assert forall|j: int| 0 <= j < kept[k].len() implies (#[trigger] kept[k][j])
                        == lines[k][j] || kept[k][j] == ' ' by {
                        assert(kept[k][j] == kept_written[k][j]);
                    }
                }
            }
        } else {
            let grown_line = cur.push(c);
            assert(lines == lines0.drop_last().push(grown_line));
            if st0.skipping {
                assert forall|k: int| 0 <= k < lines.len() implies overlays(
                    #[trigger] kept[k],
                    lines[k],
                ) by {
                    assert(overlays(kept0[k], lines0[k]));
                    if k == lines.len() - 1 {
                        assert forall|j: int| 0 <= j < kept[k].len() implies (
                        #[trigger] kept[k][j]) == lines[k][j] || kept[k][j] == ' ' by {
                            assert(kept0[k][j] == cur[j] || kept0[k][j] == ' ');
                        }
                    }
                }
            } else if st.out == marked(st0.out, true) && st.pending is None {
                // a comment mark: the pending character and this one become spaces
                lemma_split_push(st0.out, ' ', '\n');
                lemma_split_push(st0.out.push(' '), ' ', '\n');
                let marks = kept0.last().push(' ').push(' ');
                assert(kept =~= kept0.drop_last().push(marks));
                assert forall|k: int| 0 <= k < lines.len() implies overlays(
                    #[trigger] kept[k],
                    lines[k],
                ) by {
                    assert(overlays(kept0[k], lines0[k]));
                    if k == lines.len() - 1 {
                        assert forall|j: int| 0 <= j < kept[k].len() implies (
                        #[trigger] kept[k][j]) == lines[k][j] || kept[k][j] == ' ' by {
                            if j < kept0.last().len() {
                                assert(kept0[k][j] == cur[j] || kept0[k][j] == ' ');
                            }
                        }
                    } else {
                        assert(kept[k] == kept0[k]);
                    }
                }
            } else {
                // any other character: it waits, and the one before it is written
                assert(st.out == written);
                assert(st.pending == Some(c));
                assert forall|k: int| 0 <= k < lines.len() implies overlays(
                    #[trigger] kept[k],
                    lines[k],
                ) by {
                    assert(overlays(kept_written[k], lines0[k]));
                    if k == lines.len() - 1 {
                        assert forall|j: int| 0 <= j < kept[k].len() implies (
                        #[trigger] kept[k][j]) == lines[k][j] || kept[k][j] == ' ' by {
                            assert(kept_written[k][j] == cur[j] || kept_written[k][j] == ' ');
                        }
                    }
                }
            }
        }
    }
}

/// With positions kept, stripping leaves every character where it stood:
/// line by line, the result is no longer than the text with a line feed at
/// its end, and at each place of it stands the character of the text or a
/// space.
pub proof fn law_strip_keeps_positions(text: Seq<char>)
    ensures
        all_overlay(split_on(stripped(text, true), '\n'), split_on(text.push('\n'), '\n')),
{
    assert(text.push('\n').drop_last() =~= text);
    lemma_scan_keeps_positions(text.push('\n'));
}

} // verus!
