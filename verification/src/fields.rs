//! Splitting a line into its whitespace-separated fields.

use crate::chars::{chars_of, is_space, is_whitespace, substring};
use vstd::prelude::*;

verus! {

/// The fields of `s`: its maximal runs of characters that are not
/// separators, in the order in which they occur.
///
/// Reading `s` from the left, a separator adds nothing, a character that
/// follows another character of a field lengthens the last field, and any
/// other character opens a new field.
pub open spec fn fields(s: Seq<char>) -> Seq<Seq<char>>
    decreases s.len(),
{
    if s.len() == 0 {
        Seq::empty()
    } else {
        let before = fields(s.drop_last());
        let c = s.last();
        if is_space(c) {
            before
        } else if s.len() >= 2 && !is_space(s[s.len() - 2]) {
            before.drop_last().push(before.last().push(c))
        } else {
            before.push(seq![c])
        }
    }
}

/// Whether `w` can be a field: it is not empty and holds no separator.
pub open spec fn is_word(w: Seq<char>) -> bool {
    &&& w.len() > 0
    &&& forall|i: int| 0 <= i < w.len() ==> !is_space(#[trigger] w[i])
}

/// Splits `line` into its fields.
pub fn split_fields(line: &str) -> (out: Vec<String>)
    ensures
        out.deep_view() == fields(line@),
{
    let text = chars_of(line);
    let ascii = line.is_ascii();
    let n: usize = text.len();
    let mut out: Vec<String> = Vec::new();
    let mut start: usize = 0;
    let mut in_field = false;
    let mut i: usize = 0;
    while i < n
        invariant
            text@ == line@,
            ascii ==> line.is_ascii(),
            n == text.len(),
            start <= i <= n,
            in_field <==> i > 0 && !is_space(text[i - 1]),
            in_field ==> fields(text@.take(i as int)) == out.deep_view().push(
                text@.subrange(start as int, i as int),
            ),
            !in_field ==> fields(text@.take(i as int)) == out.deep_view(),
        decreases n - i,
    {
        let separator = is_whitespace(text[i]);
        assert(text@.take(i + 1).drop_last() == text@.take(i as int));
        if separator {
            if in_field {
                let field = substring(line, ascii, start, i).to_owned();
                out.push(field);
            }
            in_field = false;
        } else {
            if in_field {
                assert(text@.subrange(start as int, i + 1) == text@.subrange(
                    start as int,
                    i as int,
                ).push(text[i as int]));
            } else {
                start = i;
                assert(text@.subrange(i as int, i + 1) == seq![text[i as int]]);
            }
            in_field = true;
        }
        i += 1;
    }
    assert(text@.take(n as int) == text@);
    if in_field {
        let field = substring(line, ascii, start, n).to_owned();
        out.push(field);
    }
    out
}

/// Every field is a word, and text that ends in a character of a field has
/// that field.
pub proof fn lemma_fields_are_words(s: Seq<char>)
    ensures
        forall|k: int| 0 <= k < fields(s).len() ==> is_word(#[trigger] fields(s)[k]),
        s.len() > 0 && !is_space(s.last()) ==> fields(s).len() > 0,
    decreases s.len(),
{
    if s.len() > 0 {
        let before = fields(s.drop_last());
        let c = s.last();
        lemma_fields_are_words(s.drop_last());
        if s.len() >= 2 {
            assert(s.drop_last().last() == s[s.len() - 2]);
        }
        assert forall|k: int| 0 <= k < fields(s).len() implies is_word(
            #[trigger] fields(s)[k],
        ) by {
            if !is_space(c) && s.len() >= 2 && !is_space(s[s.len() - 2]) {
                if k == before.len() - 1 {
                    let grown = before.last().push(c);
                    assert(is_word(before.last()));
                    assert forall|i: int| 0 <= i < grown.len() implies !is_space(
                        #[trigger] grown[i],
                    ) by {
                        if i < before.last().len() {
                            assert(grown[i] == before.last()[i]);
                        }
                    }
                } else {
                    assert(fields(s)[k] == before[k]);
                }
            } else if !is_space(c) && k == before.len() {
                assert(fields(s)[k] == seq![c]);
            } else {
                assert(fields(s)[k] == before[k]);
            }
        }
    }
}

/// A word alone is its own single field.
pub proof fn lemma_fields_of_word(w: Seq<char>)
    requires
        is_word(w),
    ensures
        fields(w) == seq![w],
    decreases w.len(),
{
    let head = w.drop_last();
    if head.len() == 0 {
        assert(fields(head) == Seq::<Seq<char>>::empty());
        assert(seq![w.last()] == w);
    } else {
        lemma_fields_of_word(head);
        assert(head.push(w.last()) == w);
    }
}

/// Where two pieces of text meet at a separator, or one of them is empty,
/// the fields of the whole are the fields of the first piece and then those
/// of the second.
pub proof fn lemma_fields_concat(a: Seq<char>, b: Seq<char>)
    requires
        a.len() == 0 || is_space(a.last()) || b.len() == 0 || is_space(b[0]),
    ensures
        fields(a + b) == fields(a) + fields(b),
    decreases b.len(),
{
    if b.len() > 0 {
        assert((a + b).drop_last() == a + b.drop_last());
        lemma_fields_concat(a, b.drop_last());
        lemma_fields_are_words(b.drop_last());
    }
}

} // verus!
