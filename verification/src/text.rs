//! Text as a sequence of characters, and its parts between separators.
//!
//! The model of a text is `Seq<char>`, the view of a `str`. The functions
//! that read a text take its characters as a slice, so that a part of one
//! text can be read as a text of its own.

use vstd::prelude::*;

verus! {

/// The parts of `text` between the occurrences of `sep`, from left to right.
///
/// A text with `n` separators has `n + 1` parts; a part is empty where two
/// separators touch, or where one stands at either end of the text. The
/// empty text has one part, which is empty.
pub open spec fn split(text: Seq<char>, sep: char) -> Seq<Seq<char>>
    decreases text.len(),
{
    match text.index_of_first(sep) {
        Some(at) if 0 <= at < text.len() => seq![text.take(at)] + split(text.skip(at + 1), sep),
        _ => seq![text],
    }
}

/// The views of the parts held in a vector.
pub open spec fn part_views(parts: Seq<Vec<char>>) -> Seq<Seq<char>> {
    parts.map_values(|part: Vec<char>| part@)
}

/// Where the first separator of a text stands, the text splits into what
/// precedes it and the parts of what follows.
pub proof fn lemma_split_at_first(text: Seq<char>, sep: char, at: int)
    requires
        0 <= at < text.len(),
        text[at] == sep,
        forall|i: int| 0 <= i < at ==> text[i] != sep,
    ensures
        split(text, sep) == seq![text.take(at)] + split(text.skip(at + 1), sep),
{
    text.index_of_first_ensures(sep);
    assert(text.contains(sep));
}

/// A text that starts with a part free of separators, followed by a
/// separator, splits into that part and the parts of the rest.
pub proof fn lemma_split_joined(first: Seq<char>, sep: char, rest: Seq<char>)
    requires
        !first.contains(sep),
    ensures
        split(first + seq![sep] + rest, sep) == seq![first] + split(rest, sep),
{
    let text = first + seq![sep] + rest;
    let at = first.len() as int;
    assert forall|i: int| 0 <= i < at implies text[i] != sep by {
        assert(text[i] == first[i]);
    }
    lemma_split_at_first(text, sep, at);
    assert(text.take(at) == first);
    assert(text.skip(at + 1) == rest);
}

/// A text without separator is its own single part.
pub proof fn lemma_split_none(text: Seq<char>, sep: char)
    requires
        !text.contains(sep),
    ensures
        split(text, sep) == seq![text],
{
    text.index_of_first_ensures(sep);
}

/// The characters of a string, in order.
pub fn chars_of(text: &str) -> (chars: Vec<char>)
    ensures
        chars@ == text@,
{
    let mut chars: Vec<char> = Vec::new();
    let source = text.chars();
    proof {
        vstd::string::axiom_spec_iter(text);
    }
    for c in it: source
        invariant
            it.seq() == text@,
            chars@ == text@.take(it.index()),
    {
        chars.push(c);
    }
    chars
}

/// Splits `text` at every occurrence of `sep`.
///
/// The parts come in the order in which they stand in the text, the empty
/// ones among them.
pub fn split_chars(text: &[char], sep: char) -> (parts: Vec<Vec<char>>)
    ensures
        part_views(parts@) == split(text@, sep),
{
    let mut parts: Vec<Vec<char>> = Vec::new();
    let mut current: Vec<char> = Vec::new();
    let mut start: usize = 0;
    let mut at: usize = 0;
    proof {
        assert(text@.skip(0) == text@);
        assert(part_views(parts@) == Seq::<Seq<char>>::empty());
    }
    while at < text.len()
        invariant
            start <= at <= text.len(),
            current@ == text@.subrange(start as int, at as int),
            !current@.contains(sep),
            split(text@, sep) == part_views(parts@) + split(text@.skip(start as int), sep),
        decreases text.len() - at,
    {
        let c = text[at];
        if c == sep {
            proof {
                let rest = text@.skip(start as int);
                assert forall|i: int| 0 <= i < at - start implies rest[i] != sep by {
                    assert(rest[i] == current@[i]);
                }
                lemma_split_at_first(rest, sep, at - start);
                assert(rest.take(at - start) == current@);
                assert(rest.skip(at - start + 1) == text@.skip(at + 1));
                assert(part_views(parts@.push(current)) == part_views(parts@).push(current@));
            }
            parts.push(current);
            current = Vec::new();
            start = at + 1;
        } else {
            current.push(c);
        }
        at += 1;
    }
    proof {
        assert(text@.skip(start as int) == current@);
        lemma_split_none(current@, sep);
        assert(part_views(parts@.push(current)) == part_views(parts@).push(current@));
    }
    parts.push(current);
    parts
}

} // verus!
