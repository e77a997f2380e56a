//! Conversions between text and sequences of characters.

use vstd::prelude::*;

verus! {

/// `String::push` of the standard library appends the given character to the
/// end of the string and leaves the characters before it as they were.
pub assume_specification[ String::push ](text: &mut String, ch: char)
    ensures
        final(text)@ == old(text)@.push(ch),
;

/// A sequence is its own subrange from the first element to the last.
pub proof fn lemma_subrange_all<A>(items: Seq<A>)
    ensures
        items.subrange(0, items.len() as int) == items,
{
}

/// The characters of `text`, in order.
pub fn chars_of(text: &str) -> (chars: Vec<char>)
    ensures
        chars@ == text@,
{
    broadcast use vstd::string::group_string_axioms;

    let mut chars: Vec<char> = Vec::new();
    for c in it: text.chars()
        invariant
            it.seq() == text@,
            chars@ == it.seq().take(it.index()),
    {
        chars.push(c);
        assert(it.seq().take(it.index() + 1) == it.seq().take(it.index()).push(c));
    }
    assert(text@.take(text@.len() as int) == text@);
    chars
}

/// A copy of the characters `chars[from..to]`.
pub fn copy_range(chars: &Vec<char>, from: usize, to: usize) -> (copy: Vec<char>)
    requires
        from <= to <= chars.len(),
    ensures
        copy@ == chars@.subrange(from as int, to as int),
{
    let mut copy: Vec<char> = Vec::new();
    let mut at: usize = from;
    while at < to
        invariant
            from <= at <= to <= chars.len(),
            copy@ == chars@.subrange(from as int, at as int),
        decreases to - at,
    {
        copy.push(chars[at]);
        at += 1;
    }
    copy
}

/// Appends the characters of `chars` to `out`.
pub fn push_all(out: &mut Vec<char>, chars: &Vec<char>)
    ensures
        final(out)@ == old(out)@ + chars@,
{
    let mut at: usize = 0;
    while at < chars.len()
        invariant
            at <= chars.len(),
            out@ == old(out)@ + chars@.take(at as int),
        decreases chars.len() - at,
    {
        out.push(chars[at]);
        at += 1;
        assert(old(out)@ + chars@.take(at as int) == (old(out)@ + chars@.take(at - 1)).push(
            chars@[at - 1],
        ));
    }
    assert(chars@.take(at as int) == chars@);
}

/// What each of a list of character vectors holds.
pub open spec fn texts_of(items: Seq<Vec<char>>) -> Seq<Seq<char>> {
    items.map_values(|item: Vec<char>| item@)
}

/// The number of characters of `text` before the first that `stop` holds of,
/// or the length of `text` if it holds of none.
pub open spec fn span(text: Seq<char>, stop: spec_fn(char) -> bool) -> nat
    decreases text.len(),
{
    if text.len() == 0 || stop(text[0]) {
        0
    } else {
        1 + span(text.drop_first(), stop)
    }
}

/// A span ends within the text, at the first character that stops it.
pub proof fn lemma_span(text: Seq<char>, stop: spec_fn(char) -> bool)
    ensures
        span(text, stop) <= text.len(),
        span(text, stop) < text.len() ==> stop(text[span(text, stop) as int]),
        forall|at: int| 0 <= at < span(text, stop) ==> !stop(#[trigger] text[at]),
    decreases text.len(),
{
    if text.len() == 0 || stop(text[0]) {
    } else {
        let rest = text.drop_first();
        lemma_span(rest, stop);
        assert forall|at: int| 0 <= at < span(text, stop) implies !stop(#[trigger] text[at]) by {
            if at > 0 {
                assert(text[at] == rest[at - 1]);
            }
        }
    }
}

/// The span is the one position that no earlier character stops and that is
/// the end of the text or a character that stops.
pub proof fn lemma_span_is(text: Seq<char>, stop: spec_fn(char) -> bool, length: int)
    requires
        0 <= length <= text.len(),
        forall|at: int| 0 <= at < length ==> !stop(#[trigger] text[at]),
        length < text.len() ==> stop(text[length]),
    ensures
        span(text, stop) == length,
    decreases text.len(),
{
    if length > 0 {
        let rest = text.drop_first();
        assert(!stop(text[0]));
        assert forall|at: int| 0 <= at < length - 1 implies !stop(#[trigger] rest[at]) by {
            assert(rest[at] == text[at + 1]);
        }
        lemma_span_is(rest, stop, length - 1);
    }
}

/// Dropping an item that `keep` maps to nothing changes nothing in what is
/// kept of a list.
pub proof fn lemma_filter_map_insert_none<A, B>(
    items: Seq<A>,
    keep: spec_fn(A) -> Option<B>,
    at: int,
    item: A,
)
    requires
        0 <= at <= items.len(),
        keep(item) is None,
    ensures
        items.insert(at, item).filter_map(keep) == items.filter_map(keep),
    decreases items.len(),
{
    let longer = items.insert(at, item);
    if at == items.len() {
        assert(longer.drop_last() == items);
        assert(longer.last() == item);
    } else {
        assert(longer.drop_last() == items.drop_last().insert(at, item));
        assert(longer.last() == items.last());
        lemma_filter_map_insert_none(items.drop_last(), keep, at, item);
    }
}

/// The text made of the characters `chars[from..to]`.
pub fn text_of(chars: &Vec<char>, from: usize, to: usize) -> (text: String)
    requires
        from <= to <= chars.len(),
    ensures
        text@ == chars@.subrange(from as int, to as int),
{
    let mut text = String::new();
    let mut i: usize = from;
    while i < to
        invariant
            from <= i <= to <= chars.len(),
            text@ == chars@.subrange(from as int, i as int),
        decreases to - i,
    {
        text.push(chars[i]);
        i += 1;
        assert(chars@.subrange(from as int, i as int) == chars@.subrange(from as int, i - 1).push(
            chars@[i - 1],
        ));
    }
    text
}

} // verus!
