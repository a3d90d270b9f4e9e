//! Splitting text into its lines.

use crate::chars::{chars_of, substring};
use vstd::prelude::*;

verus! {

/// The lines of `text`. A line ends at a line feed, which is no part of it,
/// or at the end of the text; after the last line feed nothing more is a
/// line unless a character follows.
///
/// Reading `text` from the left, a character that follows another character
/// of a line lengthens the last line, or ends it if it is a line feed; any
/// other character opens a new line, an empty one if it is a line feed.
pub open spec fn lines_of(text: Seq<char>) -> Seq<Seq<char>>
    decreases text.len(),
{
    if text.len() == 0 {
        Seq::empty()
    } else {
        let before = lines_of(text.drop_last());
        let c = text.last();
        if text.len() >= 2 && text[text.len() - 2] != '\n' {
            if c == '\n' {
                before
            } else {
                before.drop_last().push(before.last().push(c))
            }
        } else {
            if c == '\n' {
                before.push(Seq::empty())
            } else {
                before.push(seq![c])
            }
        }
    }
}

/// Whether `line` can be a line: it holds no line feed.
pub open spec fn is_line(line: Seq<char>) -> bool {
    forall|i: int| 0 <= i < line.len() ==> #[trigger] line[i] != '\n'
}

/// The text of `lines`: each of them with a line feed after it, one after
/// the other.
pub open spec fn text_of(lines: Seq<Seq<char>>) -> Seq<char>
    decreases lines.len(),
{
    if lines.len() == 0 {
        Seq::empty()
    } else {
        text_of(lines.drop_last()) + lines.last() + seq!['\n']
    }
}

/// Splits `text` into its lines.
pub fn split_lines(text: &str) -> (out: Vec<String>)
    ensures
        out.deep_view() == lines_of(text@),
{
    let chars = chars_of(text);
    let ascii = text.is_ascii();
    let n: usize = chars.len();
    let mut out: Vec<String> = Vec::new();
    let mut start: usize = 0;
    let mut in_line = false;
    let mut i: usize = 0;
    while i < n
        invariant
            chars@ == text@,
            ascii ==> text.is_ascii(),
            n == chars.len(),
            start <= i <= n,
            in_line <==> i > 0 && chars[i - 1] != '\n',
            in_line ==> lines_of(chars@.take(i as int)) == out.deep_view().push(
                chars@.subrange(start as int, i as int),
            ),
            !in_line ==> lines_of(chars@.take(i as int)) == out.deep_view(),
        decreases n - i,
    {
        let c: char = chars[i];
        assert(chars@.take(i + 1).drop_last() == chars@.take(i as int));
        if c == '\n' {
            if !in_line {
                start = i;
            }
            let line = substring(text, ascii, start, i).to_owned();
            out.push(line);
            assert(chars@.subrange(i as int, i as int) == Seq::<char>::empty());
            in_line = false;
        } else {
            if in_line {
                assert(chars@.subrange(start as int, i + 1) == chars@.subrange(
                    start as int,
                    i as int,
                ).push(c));
            } else {
                start = i;
                assert(chars@.subrange(i as int, i + 1) == seq![c]);
            }
            in_line = true;
        }
        i += 1;
    }
    assert(chars@.take(n as int) == chars@);
    if in_line {
        let line = substring(text, ascii, start, n).to_owned();
        out.push(line);
    }
    out
}

/// No line holds a line feed, and text that ends in another character has a
/// last line that is not empty.
pub proof fn lemma_lines_are_lines(text: Seq<char>)
    ensures
        forall|k: int| 0 <= k < lines_of(text).len() ==> is_line(#[trigger] lines_of(text)[k]),
        text.len() > 0 && text.last() != '\n' ==> lines_of(text).len() > 0 && lines_of(
            text,
        ).last().len() > 0,
    decreases text.len(),
{
    if text.len() > 0 {
        let before = lines_of(text.drop_last());
        let c = text.last();
        lemma_lines_are_lines(text.drop_last());
        if text.len() >= 2 {
            assert(text.drop_last().last() == text[text.len() - 2]);
        }
        assert forall|k: int| 0 <= k < lines_of(text).len() implies is_line(
            #[trigger] lines_of(text)[k],
        ) by {
            if text.len() >= 2 && text[text.len() - 2] != '\n' {
                if c != '\n' {
                    if k == before.len() - 1 {
                        let grown = before.last().push(c);
                        assert(is_line(before.last()));
                        assert forall|i: int| 0 <= i < grown.len() implies #[trigger] grown[i]
                            != '\n' by {
                            if i < before.last().len() {
                                assert(grown[i] == before.last()[i]);
                            }
                        }
                    } else {
                        assert(lines_of(text)[k] == before[k]);
                    }
                }
            } else {
                if k < before.len() {
                    assert(lines_of(text)[k] == before[k]);
                }
            }
        }
    }
}

/// A line without a line feed after it adds itself to text that is empty or
/// ends in a line feed, if it is not empty.
pub proof fn lemma_lines_of_open_line(head: Seq<char>, line: Seq<char>)
    requires
        head.len() == 0 || head.last() == '\n',
        is_line(line),
        line.len() > 0,
    ensures
        lines_of(head + line) == lines_of(head).push(line),
    decreases line.len(),
{
    let whole = head + line;
    assert(whole.drop_last() == head + line.drop_last());
    if line.len() == 1 {
        assert(seq![line.last()] == line);
        if head.len() > 0 {
            assert(whole[whole.len() - 2] == head.last());
        }
    } else {
        lemma_lines_of_open_line(head, line.drop_last());
        assert(line.drop_last().push(line.last()) == line);
    }
}

/// A line with a line feed after it adds itself to text that is empty or
/// ends in a line feed.
pub proof fn lemma_lines_of_closed_line(head: Seq<char>, line: Seq<char>)
    requires
        head.len() == 0 || head.last() == '\n',
        is_line(line),
    ensures
        lines_of(head + line + seq!['\n']) == lines_of(head).push(line),
{
    let whole = head + line + seq!['\n'];
    assert(whole.drop_last() == head + line);
    if line.len() == 0 {
        assert(line == Seq::<char>::empty());
        if head.len() > 0 {
            assert(whole[whole.len() - 2] == head.last());
        }
    } else {
        lemma_lines_of_open_line(head, line);
    }
}

/// The lines of the text of `lines` are `lines`, where none of them holds a
/// line feed.
pub proof fn lemma_lines_of_text(lines: Seq<Seq<char>>)
    requires
        forall|i: int| 0 <= i < lines.len() ==> is_line(#[trigger] lines[i]),
    ensures
        lines_of(text_of(lines)) == lines,
        text_of(lines).len() == 0 || text_of(lines).last() == '\n',
    decreases lines.len(),
{
    if lines.len() > 0 {
        let head = lines.drop_last();
        lemma_lines_of_text(head);
        lemma_lines_of_closed_line(text_of(head), lines.last());
    }
}

} // verus!
