//! Writing a machine definition in the tabular format, and the proof that
//! reading gives back what was written.

use crate::decimal::{
    decimal_text, digits_text, is_digit, lemma_decimal_round_trip, lemma_digits_text,
    push_position,
};
use crate::error::LoadError;
use crate::machine::{Direction, Machine, MachineView, Rule, RuleView};
use crate::tabular::{
    direction_of, ends_field, fields, is_blank, is_one_line, kept_lines, lemma_kept_concat,
    lemma_kept_line, lines, tabular_machine, tabular_rule, tabular_rules,
};
use crate::text::{chars_of, lemma_span_is, lemma_subrange_all, push_all, text_of};
use vstd::prelude::*;

verus! {

/// The letter that writes a move.
pub open spec fn direction_symbol(direction: Direction) -> char {
    match direction {
        Direction::Left => 'L',
        Direction::Right => 'R',
    }
}

/// The line that writes a rule, without its line feed: the five fields with
/// one space between them.
pub open spec fn rule_line(rule: RuleView) -> Seq<char> {
    rule.from_state + seq![' '] + (seq![rule.read_symbol] + seq![' '] + (seq![rule.write_symbol]
        + seq![' '] + (seq![direction_symbol(rule.direction)] + seq![' '] + rule.to_state)))
}

/// The lines that write a list of rules, each with its line feed.
pub open spec fn rules_text(rules: Seq<RuleView>) -> Seq<char>
    decreases rules.len(),
{
    if rules.len() == 0 {
        Seq::empty()
    } else {
        rules_text(rules.drop_last()) + (rule_line(rules.last()) + seq!['\n'])
    }
}

/// The two lines that open a definition: the tape, then the position.
pub open spec fn header_text(tape: Seq<char>, position: int) -> Seq<char> {
    (tape + seq!['\n']) + (decimal_text(position) + seq!['\n'])
}

/// The tabular definition of a machine.
pub open spec fn tabular_text(machine: MachineView) -> Seq<char> {
    header_text(machine.tape, machine.initial_head_position) + rules_text(machine.rules)
}

/// Whether `text` is a field: not empty, and without a blank.
pub open spec fn is_word(text: Seq<char>) -> bool {
    text.len() > 0 && forall|at: int| 0 <= at < text.len() ==> !is_blank(#[trigger] text[at])
}

/// Whether a tape can stand as the first line of a definition: it is not
/// empty, holds no line feed, and does not end with a carriage return.
pub open spec fn is_tape_line(tape: Seq<char>) -> bool {
    tape.len() > 0 && is_one_line(tape) && tape.last() != '\r'
}

/// Whether a rule can be written: its labels are fields, and its symbols are
/// not blank.
pub open spec fn is_writable(rule: RuleView) -> bool {
    &&& is_word(rule.from_state)
    &&& is_word(rule.to_state)
    &&& !is_blank(rule.read_symbol)
    &&& !is_blank(rule.write_symbol)
}

/// A field and a space before more text: the field comes first.
proof fn lemma_fields_prepend(word: Seq<char>, rest: Seq<char>)
    requires
        is_word(word),
    ensures
        fields(word + seq![' '] + rest) == seq![word] + fields(rest),
{
    let text = word + seq![' '] + rest;
    let length = word.len() as int;
    assert(text[0] == word[0]);
    assert forall|at: int| 0 <= at < length implies !ends_field()(#[trigger] text[at]) by {
        assert(text[at] == word[at]);
    }
    assert(text[length] == ' ');
    lemma_span_is(text, ends_field(), length);
    assert(text.take(length) == word);
    let tail = text.skip(length);
    assert(tail[0] == ' ');
    assert(tail.drop_first() == rest);
    assert(fields(tail) == fields(rest));
}

/// A field alone is its own one field.
proof fn lemma_fields_word(word: Seq<char>)
    requires
        is_word(word),
    ensures
        fields(word) == seq![word],
{
    let length = word.len() as int;
    assert forall|at: int| 0 <= at < length implies !ends_field()(#[trigger] word[at]) by {}
    lemma_span_is(word, ends_field(), length);
    assert(word.take(length) == word);
    assert(word.skip(length).len() == 0);
    assert(fields(word.skip(length)) == Seq::<Seq<char>>::empty());
    assert(seq![word] + Seq::<Seq<char>>::empty() == seq![word]);
}

/// The line that writes a rule is one line that is kept, and reads back as
/// that rule.
pub proof fn lemma_rule_line(rule: RuleView)
    requires
        is_writable(rule),
    ensures
        tabular_rule(rule_line(rule)) == Some(rule),
        is_one_line(rule_line(rule)),
        rule_line(rule).len() > 0,
        rule_line(rule).last() != '\r',
{
    let read = seq![rule.read_symbol];
    let write = seq![rule.write_symbol];
    let movement = seq![direction_symbol(rule.direction)];
    let fourth = movement + seq![' '] + rule.to_state;
    let third = write + seq![' '] + fourth;
    let second = read + seq![' '] + third;
    let line = rule_line(rule);
    assert(line == rule.from_state + seq![' '] + second);
    assert(is_word(read)) by {
        assert(read[0] == rule.read_symbol);
    }
    assert(is_word(write)) by {
        assert(write[0] == rule.write_symbol);
    }
    assert(is_word(movement)) by {
        assert(movement[0] == direction_symbol(rule.direction));
    }
    lemma_fields_word(rule.to_state);
    lemma_fields_prepend(movement, rule.to_state);
    lemma_fields_prepend(write, fourth);
    lemma_fields_prepend(read, third);
    lemma_fields_prepend(rule.from_state, second);
    let parts = fields(line);
    assert(parts == seq![rule.from_state] + (seq![read] + (seq![write] + (seq![movement]
        + seq![rule.to_state]))));
    assert(parts.len() == 5);
    assert(parts[0] == rule.from_state);
    assert(parts[1] == read);
    assert(parts[2] == write);
    assert(parts[3] == movement);
    assert(parts[4] == rule.to_state);
    assert(direction_of(movement[0]) == Some(rule.direction));
    assert(line.last() == rule.to_state.last());
    assert forall|at: int| 0 <= at < line.len() implies #[trigger] line[at] != '\n' by {
        let a = rule.from_state.len() as int;
        if at < a {
            assert(line[at] == rule.from_state[at]);
        } else if at >= a + 7 {
            assert(line[at] == rule.to_state[at - a - 7]);
        }
    }
}

/// What is read from the written rules is those rules.
proof fn lemma_rules_round_trip(rules: Seq<RuleView>)
    requires
        forall|index: int| 0 <= index < rules.len() ==> is_writable(#[trigger] rules[index]),
    ensures
        tabular_rules(kept_lines(rules_text(rules))) == rules,
        rules_text(rules).len() == 0 || rules_text(rules).last() == '\n',
    decreases rules.len(),
{
    if rules.len() == 0 {
        assert(lines(rules_text(rules)).len() == 0);
        reveal(Seq::filter);
        assert(kept_lines(rules_text(rules)).len() == 0);
    } else {
        let front = rules.drop_last();
        let last = rules.last();
        assert forall|index: int| 0 <= index < front.len() implies is_writable(
            #[trigger] front[index],
        ) by {
            assert(front[index] == rules[index]);
        }
        lemma_rules_round_trip(front);
        lemma_rule_line(last);
        lemma_kept_line(rule_line(last));
        lemma_kept_concat(rules_text(front), rule_line(last) + seq!['\n']);
        let kept = kept_lines(rules_text(rules));
        assert(kept == kept_lines(rules_text(front)) + seq![rule_line(last)]);
        assert(kept.drop_last() == kept_lines(rules_text(front)));
        assert(kept.last() == rule_line(last));
        assert(front + seq![last] == rules);
    }
}

/// Reading a definition that opens with a written tape and position gives
/// that tape, whole, and that position, with the rules that the rest encodes.
/// The tape must be able to stand as a line.
pub proof fn lemma_header_round_trip(tape: Seq<char>, position: int, rest: Seq<char>)
    requires
        is_tape_line(tape),
        i64::MIN <= position <= i64::MAX,
    ensures
        tabular_machine(header_text(tape, position) + rest) == Ok::<MachineView, LoadError>(
            MachineView {
                initial_head_position: position,
                tape,
                rules: tabular_rules(kept_lines(rest)),
            },
        ),
{
    let number = decimal_text(position);
    lemma_decimal_round_trip(position);
    lemma_decimal_is_line(position);
    lemma_kept_line(tape);
    lemma_kept_line(number);
    lemma_kept_concat(tape + seq!['\n'], number + seq!['\n']);
    lemma_kept_concat(header_text(tape, position), rest);
    let kept = kept_lines(header_text(tape, position) + rest);
    assert(kept == seq![tape] + seq![number] + kept_lines(rest));
    assert(kept[0] == tape);
    assert(kept[1] == number);
    assert(kept.skip(2) == kept_lines(rest));
}

/// The text that writes a number is a line that is kept.
proof fn lemma_decimal_is_line(value: int)
    ensures
        is_one_line(decimal_text(value)),
        decimal_text(value).len() > 0,
        decimal_text(value).last() != '\r',
{
    let text = decimal_text(value);
    if value < 0 {
        let digits = digits_text((-value) as nat);
        lemma_digits_text((-value) as nat);
        assert(text.last() == digits.last());
        assert(is_digit(digits[digits.len() - 1]));
        assert forall|at: int| 0 <= at < text.len() implies #[trigger] text[at] != '\n' by {
            if at > 0 {
                assert(text[at] == digits[at - 1]);
                assert(is_digit(digits[at - 1]));
            }
        }
    } else {
        lemma_digits_text(value as nat);
        assert(is_digit(text[text.len() - 1]));
        assert forall|at: int| 0 <= at < text.len() implies #[trigger] text[at] != '\n' by {
            assert(is_digit(text[at]));
        }
    }
}

/// Reading what was written gives the machine that was written, where its
/// tape can stand as a line and its rules can be written.
pub proof fn lemma_tabular_round_trip(machine: MachineView)
    requires
        is_tape_line(machine.tape),
        i64::MIN <= machine.initial_head_position <= i64::MAX,
        forall|index: int|
            0 <= index < machine.rules.len() ==> is_writable(#[trigger] machine.rules[index]),
    ensures
        tabular_machine(tabular_text(machine)) == Ok::<MachineView, LoadError>(
            machine,
        ),
{
    lemma_header_round_trip(
        machine.tape,
        machine.initial_head_position,
        rules_text(machine.rules),
    );
    lemma_rules_round_trip(machine.rules);
}

/// Appends the line that writes `rule`, and its line feed, to `out`.
fn push_rule(rule: &Rule, out: &mut Vec<char>)
    ensures
        final(out)@ == old(out)@ + (rule_line(rule@) + seq!['\n']),
{
    let from_state = chars_of(rule.from_state.as_str());
    let to_state = chars_of(rule.to_state.as_str());
    let ghost start = out@;
    push_all(out, &from_state);
    out.push(' ');
    out.push(rule.read_symbol);
    out.push(' ');
    out.push(rule.write_symbol);
    out.push(' ');
    out.push(
        match rule.direction {
            Direction::Left => 'L',
            Direction::Right => 'R',
        },
    );
    out.push(' ');
    push_all(out, &to_state);
    out.push('\n');
    assert(out@ == start + (rule_line(rule@) + seq!['\n']));
}

/// Writes `machine` in the tabular format: the tape, the position, and one
/// line for each rule.
pub fn to_tabular(machine: &Machine) -> (text: String)
    ensures
        text@ == tabular_text(machine@),
{
    let mut out: Vec<char> = Vec::new();
    push_all(&mut out, &machine.tape);
    out.push('\n');
    push_position(machine.initial_head_position, &mut out);
    out.push('\n');
    assert(out@ == header_text(machine@.tape, machine@.initial_head_position));
    let ghost header = out@;
    let mut at: usize = 0;
    assert(rules_text(machine@.rules.take(0)).len() == 0);
    while at < machine.rules.len()
        invariant
            at <= machine.rules.len(),
            out@ == header + rules_text(machine@.rules.take(at as int)),
        decreases machine.rules.len() - at,
    {
        push_rule(&machine.rules[at], &mut out);
        proof {
            let longer = machine@.rules.take(at + 1);
            assert(longer.drop_last() == machine@.rules.take(at as int));
            assert(longer.last() == machine.rules@[at as int]@);
            assert(header + rules_text(longer.drop_last()) + (rule_line(longer.last()) + seq!['\n'])
                == header + rules_text(longer));
        }
        at += 1;
    }
    proof {
        assert(machine@.rules.take(at as int) == machine@.rules);
        lemma_subrange_all(out@);
    }
    text_of(&out, 0, out.len())
}

} // verus!
