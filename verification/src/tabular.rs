//! The tabular format of a machine definition. The first line that is not
//! empty is the tape, the second the initial head position, and each one after
//! them a rule of five fields: state, read symbol, write symbol, move, next
//! state. Empty lines count nowhere.

use crate::decimal::{parse_position, position_value};
use crate::error::{loaded_view, LoadError};
use crate::machine::{option_view, rules_view, Direction, Machine, MachineView, Rule, RuleView};
use crate::text::{
    chars_of, copy_range, lemma_filter_map_insert_none, lemma_span, lemma_span_is,
    lemma_subrange_all, span, text_of, texts_of,
};
use vstd::prelude::*;

verus! {

/// Whether `c` separates fields: a space, a tab, a line feed, a form feed or
/// a carriage return.
pub open spec fn is_blank(c: char) -> bool {
    c == ' ' || c == '\t' || c == '\n' || c == '\u{c}' || c == '\r'
}

/// What ends a line: the line feed.
pub open spec fn ends_line() -> spec_fn(char) -> bool {
    |c: char| c == '\n'
}

/// What ends a field: any blank.
pub open spec fn ends_field() -> spec_fn(char) -> bool {
    |c: char| is_blank(c)
}

/// A line without the carriage return that stood before its line feed.
pub open spec fn without_return(line: Seq<char>) -> Seq<char> {
    if line.len() > 0 && line.last() == '\r' {
        line.drop_last()
    } else {
        line
    }
}

/// The lines of a text. A line ends at a line feed, or at a carriage return
/// and a line feed; the last line may end with the text.
pub open spec fn lines(text: Seq<char>) -> Seq<Seq<char>>
    decreases text.len(),
{
    if text.len() == 0 {
        Seq::empty()
    } else {
        let length = span(text, ends_line());
        if length >= text.len() {
            seq![text]
        } else {
            seq![without_return(text.take(length as int))] + lines(text.skip(length as int + 1))
        }
    }
}

/// Which lines count: those that are not empty.
pub open spec fn is_kept() -> spec_fn(Seq<char>) -> bool {
    |line: Seq<char>| line.len() > 0
}

/// The lines of a text that are not empty, in order.
pub open spec fn kept_lines(text: Seq<char>) -> Seq<Seq<char>> {
    lines(text).filter(is_kept())
}

/// The fields of a line: its longest runs of characters that are not blank,
/// in order.
pub open spec fn fields(line: Seq<char>) -> Seq<Seq<char>>
    decreases line.len(),
    via fields_decreases
{
    if line.len() == 0 {
        Seq::empty()
    } else if is_blank(line[0]) {
        fields(line.drop_first())
    } else {
        let length = span(line, ends_field());
        seq![line.take(length as int)] + fields(line.skip(length as int))
    }
}

#[via_fn]
proof fn fields_decreases(line: Seq<char>) {
    if line.len() > 0 && !is_blank(line[0]) {
        lemma_span(line, ends_field());
        assert(span(line, ends_field()) >= 1);
    }
}

/// No field is empty, and no field holds a blank.
pub proof fn lemma_fields_are_words(line: Seq<char>)
    ensures
        forall|index: int|
            0 <= index < fields(line).len() ==> (#[trigger] fields(line)[index]).len() > 0,
        forall|index: int, at: int|
            0 <= index < fields(line).len() && 0 <= at < fields(line)[index].len() ==> !is_blank(
                #[trigger] fields(line)[index][at],
            ),
    decreases line.len(),
{
    if line.len() == 0 {
        assert(fields(line).len() == 0);
    } else if is_blank(line[0]) {
        lemma_fields_are_words(line.drop_first());
        assert(fields(line) == fields(line.drop_first()));
    } else {
        let length = span(line, ends_field());
        lemma_span(line, ends_field());
        assert(length >= 1);
        lemma_fields_are_words(line.skip(length as int));
        let first = line.take(length as int);
        let rest = fields(line.skip(length as int));
        assert(fields(line) == seq![first] + rest);
        assert forall|index: int| 0 <= index < fields(line).len() implies (#[trigger] fields(
            line,
        )[index]).len() > 0 by {
            if index > 0 {
                assert(fields(line)[index] == rest[index - 1]);
            }
        }
        assert forall|index: int, at: int|
            0 <= index < fields(line).len() && 0 <= at < fields(line)[index].len() implies !is_blank(
            #[trigger] fields(line)[index][at],
        ) by {
            if index > 0 {
                assert(fields(line)[index] == rest[index - 1]);
            } else {
                assert(first[at] == line[at]);
            }
        }
    }
}

/// The move that a field stands for: `L` or `R` as its first character.
pub open spec fn direction_of(symbol: char) -> Option<Direction> {
    if symbol == 'L' {
        Some(Direction::Left)
    } else if symbol == 'R' {
        Some(Direction::Right)
    } else {
        None
    }
}

/// The rule that a line encodes. The line needs five fields, of which the
/// fourth begins with `L` or `R`; the symbols are the first characters of the
/// second and third field; fields after the fifth are not read. `None` for a
/// line that is not of that form.
pub open spec fn tabular_rule(line: Seq<char>) -> Option<RuleView> {
    let parts = fields(line);
    if parts.len() < 5 {
        None
    } else {
        match direction_of(parts[3][0]) {
            Some(direction) => Some(
                RuleView {
                    from_state: parts[0],
                    read_symbol: parts[1][0],
                    write_symbol: parts[2][0],
                    direction,
                    to_state: parts[4],
                },
            ),
            None => None,
        }
    }
}

/// The decoding of one line, as a function.
pub open spec fn rule_decoder() -> spec_fn(Seq<char>) -> Option<RuleView> {
    |line: Seq<char>| tabular_rule(line)
}

/// The rules that a list of lines encodes: those of the lines that encode
/// one, in the order of the lines.
pub open spec fn tabular_rules(entries: Seq<Seq<char>>) -> Seq<RuleView> {
    entries.filter_map(rule_decoder())
}

/// The machine that the lines of a definition give, or why they give none.
pub open spec fn machine_of_lines(kept: Seq<Seq<char>>) -> Result<MachineView, LoadError> {
    if kept.len() < 2 {
        Err(LoadError::MissingHeader)
    } else {
        match position_value(kept[1]) {
            None => Err(LoadError::InvalidPosition),
            Some(position) => Ok(
                MachineView {
                    initial_head_position: position as int,
                    tape: kept[0],
                    rules: tabular_rules(kept.skip(2)),
                },
            ),
        }
    }
}

/// The machine that a tabular definition gives, or why it gives none.
pub open spec fn tabular_machine(text: Seq<char>) -> Result<MachineView, LoadError> {
    machine_of_lines(kept_lines(text))
}

/// A line that encodes no rule is dropped: with such a line put anywhere among
/// the rule lines, the rules are those of the other lines alone.
pub proof fn lemma_malformed_line_is_dropped(entries: Seq<Seq<char>>, at: int, line: Seq<char>)
    requires
        0 <= at <= entries.len(),
        tabular_rule(line) is None,
    ensures
        tabular_rules(entries.insert(at, line)) == tabular_rules(entries),
{
    lemma_filter_map_insert_none(entries, rule_decoder(), at, line);
}

/// A definition with a line that encodes no rule among its rule lines gives
/// the machine that it gives without that line.
pub proof fn lemma_malformed_line_changes_nothing(kept: Seq<Seq<char>>, at: int, line: Seq<char>)
    requires
        2 <= at <= kept.len(),
        tabular_rule(line) is None,
    ensures
        machine_of_lines(kept.insert(at, line)) == machine_of_lines(kept),
{
    let longer = kept.insert(at, line);
    assert(longer[0] == kept[0]);
    assert(longer[1] == kept[1]);
    assert(longer.skip(2) == kept.skip(2).insert(at - 2, line));
    lemma_malformed_line_is_dropped(kept.skip(2), at - 2, line);
}

/// Whether `text` holds no line feed.
pub open spec fn is_one_line(text: Seq<char>) -> bool {
    forall|at: int| 0 <= at < text.len() ==> #[trigger] text[at] != '\n'
}

/// A line followed by its line feed is the one line of that text.
pub proof fn lemma_one_line(line: Seq<char>)
    requires
        is_one_line(line),
    ensures
        lines(line + seq!['\n']) == seq![without_return(line)],
{
    let text = line + seq!['\n'];
    assert forall|at: int| 0 <= at < line.len() implies !ends_line()(#[trigger] text[at]) by {
        assert(text[at] == line[at]);
    }
    lemma_span_is(text, ends_line(), line.len() as int);
    assert(text.take(line.len() as int) == line);
    assert(text.skip(line.len() as int + 1).len() == 0);
    assert(lines(text.skip(line.len() as int + 1)) == Seq::<Seq<char>>::empty());
    assert(seq![without_return(line)] + Seq::<Seq<char>>::empty() == seq![without_return(line)]);
}

/// The lines of two texts put together are the lines of the first and then
/// those of the second, where the first ends with a line feed or is empty.
pub proof fn lemma_lines_concat(first: Seq<char>, second: Seq<char>)
    requires
        first.len() == 0 || first.last() == '\n',
    ensures
        lines(first + second) == lines(first) + lines(second),
    decreases first.len(),
{
    if first.len() == 0 {
        assert(first + second == second);
        assert(lines(first) + lines(second) == lines(second));
    } else {
        let whole = first + second;
        let length = span(first, ends_line());
        lemma_span(first, ends_line());
        if length >= first.len() {
            assert(!ends_line()(first[first.len() - 1]));
        }
        assert forall|at: int| 0 <= at < length implies !ends_line()(#[trigger] whole[at]) by {
            assert(whole[at] == first[at]);
        }
        assert(whole[length as int] == first[length as int]);
        lemma_span_is(whole, ends_line(), length as int);
        let tail = first.skip(length as int + 1);
        assert(whole.take(length as int) == first.take(length as int));
        assert(whole.skip(length as int + 1) == tail + second);
        if tail.len() > 0 {
            assert(tail.last() == first.last());
        }
        lemma_lines_concat(tail, second);
        assert(lines(whole) == seq![without_return(first.take(length as int))] + lines(
            tail + second,
        ));
        assert(lines(first) == seq![without_return(first.take(length as int))] + lines(tail));
        assert(seq![without_return(first.take(length as int))] + (lines(tail) + lines(second)) == (
        seq![without_return(first.take(length as int))] + lines(tail)) + lines(second));
    }
}

/// A line that is not empty and ends with no carriage return is the one kept
/// line of itself and its line feed.
pub proof fn lemma_kept_line(line: Seq<char>)
    requires
        is_one_line(line),
        line.len() > 0,
        line.last() != '\r',
    ensures
        kept_lines(line + seq!['\n']) == seq![line],
        (line + seq!['\n']).last() == '\n',
{
    lemma_one_line(line);
    reveal_with_fuel(Seq::filter, 2);
    let one = seq![line];
    assert(one.drop_last().len() == 0);
    assert(one.last() == line);
}

/// The kept lines of two texts put together, as for all their lines.
pub proof fn lemma_kept_concat(first: Seq<char>, second: Seq<char>)
    requires
        first.len() == 0 || first.last() == '\n',
    ensures
        kept_lines(first + second) == kept_lines(first) + kept_lines(second),
{
    lemma_lines_concat(first, second);
    Seq::filter_distributes_over_add(lines(first), lines(second), is_kept());
}

/// A line that encodes no rule changes nothing wherever it stands in the text
/// after the tape and the position: the text gives the machine that it gives
/// without that line.
pub proof fn lemma_malformed_line_in_text(before: Seq<char>, line: Seq<char>, after: Seq<char>)
    requires
        before.len() > 0 && before.last() == '\n',
        kept_lines(before).len() >= 2,
        is_one_line(line),
        tabular_rule(without_return(line)) is None,
    ensures
        tabular_machine(before + (line + seq!['\n'] + after)) == tabular_machine(before + after),
{
    let entry = without_return(line);
    let ended = line + seq!['\n'];
    lemma_one_line(line);
    lemma_kept_concat(ended, after);
    lemma_kept_concat(before, ended + after);
    lemma_kept_concat(before, after);
    let front = kept_lines(before);
    let back = kept_lines(after);
    reveal_with_fuel(Seq::filter, 2);
    let one = seq![entry];
    assert(one.drop_last().len() == 0);
    assert(one.last() == entry);
    if entry.len() > 0 {
        assert(kept_lines(ended) == one);
        assert(front + (one + back) == (front + back).insert(front.len() as int, entry));
        lemma_malformed_line_changes_nothing(front + back, front.len() as int, entry);
    } else {
        assert(kept_lines(ended).len() == 0);
        assert(front + (kept_lines(ended) + back) == front + back);
    }
}

/// Whether `c` separates fields.
pub fn blank(c: char) -> (yes: bool)
    ensures
        yes == is_blank(c),
{
    c == ' ' || c == '\t' || c == '\n' || c == '\u{c}' || c == '\r'
}

/// The end of the line that begins at `from`: the position of the next line
/// feed, or the end of the text.
fn line_end(text: &Vec<char>, from: usize) -> (end: usize)
    requires
        from <= text.len(),
    ensures
        from <= end <= text.len(),
        end - from == span(text@.skip(from as int), ends_line()),
{
    let mut end: usize = from;
    while end < text.len() && text[end] != '\n'
        invariant
            from <= end <= text.len(),
            forall|at: int| from <= at < end ==> text@[at] != '\n',
        decreases text.len() - end,
    {
        end += 1;
    }
    proof {
        lemma_span_is(text@.skip(from as int), ends_line(), end - from);
    }
    end
}

/// The end of the field that begins at `from`: the position of the next
/// blank, or the end of the line.
fn field_end(line: &Vec<char>, from: usize) -> (end: usize)
    requires
        from <= line.len(),
    ensures
        from <= end <= line.len(),
        end - from == span(line@.skip(from as int), ends_field()),
{
    let mut end: usize = from;
    while end < line.len() && !blank(line[end])
        invariant
            from <= end <= line.len(),
            forall|at: int| from <= at < end ==> !is_blank(line@[at]),
        decreases line.len() - end,
    {
        end += 1;
    }
    proof {
        lemma_span_is(line@.skip(from as int), ends_field(), end - from);
    }
    end
}

/// The lines of `text` that are not empty.
pub fn split_lines(text: &Vec<char>) -> (kept: Vec<Vec<char>>)
    ensures
        texts_of(kept@) == kept_lines(text@),
{
    let len = text.len();
    let mut kept: Vec<Vec<char>> = Vec::new();
    let mut at: usize = 0;
    let ghost mut done: Seq<Seq<char>> = Seq::empty();
    proof {
        assert(text@.skip(0) == text@);
        assert(done + lines(text@) == lines(text@));
        reveal(Seq::filter);
        assert(texts_of(kept@) == done.filter(is_kept()));
    }
    while at < len
        invariant
            len == text.len(),
            at <= len,
            lines(text@) == done + lines(text@.skip(at as int)),
            texts_of(kept@) == done.filter(is_kept()),
        decreases len - at,
    {
        let end = line_end(text, at);
        let mut stop = end;
        let mut next = end;
        if end < len {
            next = end + 1;
            if end > at && text[end - 1] == '\r' {
                stop = end - 1;
            }
        }
        let ghost rest = text@.skip(at as int);
        let ghost line = text@.subrange(at as int, stop as int);
        proof {
            if end < len {
                assert(rest.take(end - at) == text@.subrange(at as int, end as int));
                assert(without_return(rest.take(end - at)) == line);
                assert(rest.skip(end - at + 1) == text@.skip(next as int));
            } else {
                assert(rest == line);
                assert(text@.skip(next as int).len() == 0);
            }
            assert(lines(rest) == seq![line] + lines(text@.skip(next as int)));
            assert(done.push(line) + lines(text@.skip(next as int)) == done + lines(rest));
            done.lemma_filter_push(line, is_kept());
        }
        if stop > at {
            let copy = copy_range(text, at, stop);
            proof {
                assert(texts_of(kept@.push(copy)) == texts_of(kept@).push(copy@));
            }
            kept.push(copy);
        }
        proof {
            done = done.push(line);
        }
        at = next;
    }
    proof {
        assert(text@.skip(at as int).len() == 0);
        assert(done + lines(text@.skip(at as int)) == done);
    }
    kept
}

/// The fields of `line`.
pub fn split_fields(line: &Vec<char>) -> (found: Vec<Vec<char>>)
    ensures
        texts_of(found@) == fields(line@),
{
    let len = line.len();
    let mut found: Vec<Vec<char>> = Vec::new();
    let mut at: usize = 0;
    proof {
        assert(line@.skip(0) == line@);
        assert(texts_of(found@) + fields(line@) == fields(line@));
    }
    while at < len
        invariant
            len == line.len(),
            at <= len,
            fields(line@) == texts_of(found@) + fields(line@.skip(at as int)),
        decreases len - at,
    {
        let ghost rest = line@.skip(at as int);
        if blank(line[at]) {
            proof {
                assert(rest[0] == line@[at as int]);
                assert(rest.drop_first() == line@.skip(at + 1));
            }
            at += 1;
        } else {
            let end = field_end(line, at);
            let copy = copy_range(line, at, end);
            proof {
                assert(rest[0] == line@[at as int]);
                lemma_span(rest, ends_field());
                assert(rest.take(end - at) == copy@);
                assert(rest.skip(end - at) == line@.skip(end as int));
                assert(fields(rest) == seq![copy@] + fields(line@.skip(end as int)));
                assert(texts_of(found@.push(copy)) == texts_of(found@).push(copy@));
                assert(texts_of(found@).push(copy@) + fields(line@.skip(end as int)) == texts_of(
                    found@,
                ) + fields(rest));
            }
            found.push(copy);
            at = end;
        }
    }
    proof {
        assert(line@.skip(at as int).len() == 0);
        assert(texts_of(found@) + fields(line@.skip(at as int)) == texts_of(found@));
    }
    found
}

/// The rule that `line` encodes, if it encodes one.
pub fn rule_of_line(line: &Vec<char>) -> (rule: Option<Rule>)
    ensures
        option_view(rule) == tabular_rule(line@),
{
    let parts = split_fields(line);
    if parts.len() < 5 {
        return None;
    }
    proof {
        lemma_fields_are_words(line@);
        assert(forall|index: int|
            0 <= index < parts.len() ==> (#[trigger] texts_of(parts@)[index]) == parts@[index]@);
        assert(texts_of(parts@)[0].len() > 0);
        assert(texts_of(parts@)[1].len() > 0);
        assert(texts_of(parts@)[2].len() > 0);
        assert(texts_of(parts@)[3].len() > 0);
        assert(texts_of(parts@)[4].len() > 0);
        lemma_subrange_all(parts@[0]@);
        lemma_subrange_all(parts@[4]@);
    }
    let movement = parts[3][0];
    let direction = if movement == 'L' {
        Direction::Left
    } else if movement == 'R' {
        Direction::Right
    } else {
        return None;
    };
    Some(
        Rule {
            from_state: text_of(&parts[0], 0, parts[0].len()),
            read_symbol: parts[1][0],
            write_symbol: parts[2][0],
            direction,
            to_state: text_of(&parts[4], 0, parts[4].len()),
        },
    )
}

/// Reads a tabular definition. It fails where fewer than two lines are not
/// empty, and where the second of them is not a head position; a line that
/// encodes no rule is passed over in silence.
pub fn parse_txt(contents: &str) -> (parsed: Result<Machine, LoadError>)
    ensures
        loaded_view(parsed) == tabular_machine(contents@),
{
    let text = chars_of(contents);
    let kept = split_lines(&text);
    if kept.len() < 2 {
        return Err(LoadError::MissingHeader);
    }
    let ghost all = texts_of(kept@);
    let ghost entries = all.skip(2);
    assert(all[0] == kept@[0]@);
    assert(all[1] == kept@[1]@);
    let position = match parse_position(&kept[1]) {
        Some(position) => position,
        None => {
            return Err(LoadError::InvalidPosition);
        },
    };
    let mut rules: Vec<Rule> = Vec::new();
    let mut at: usize = 2;
    proof {
        assert(entries.take(0).filter_map(rule_decoder()) == Seq::<RuleView>::empty());
        assert(rules_view(rules@) == Seq::<RuleView>::empty());
    }
    while at < kept.len()
        invariant
            2 <= at <= kept.len(),
            all == texts_of(kept@),
            entries == all.skip(2),
            rules_view(rules@) == entries.take(at - 2).filter_map(rule_decoder()),
        decreases kept.len() - at,
    {
        proof {
            entries.lemma_filter_map_take_succ(rule_decoder(), at - 2);
            assert(entries[at - 2] == kept@[at as int]@);
        }
        match rule_of_line(&kept[at]) {
            Some(rule) => {
                proof {
                    assert(rules_view(rules@.push(rule)) == rules_view(rules@).push(rule@));
                    assert(rules_view(rules@).push(rule@) == rules_view(rules@) + seq![rule@]);
                }
                rules.push(rule);
            },
            None => {
                assert(rules_view(rules@) + Seq::<RuleView>::empty() == rules_view(rules@));
            },
        }
        at += 1;
    }
    proof {
        assert(entries.take(at - 2) == entries);
        lemma_subrange_all(kept@[0]@);
    }
    let tape = copy_range(&kept[0], 0, kept[0].len());
    Ok(Machine { initial_head_position: position, tape, rules })
}

} // verus!
