//! The structured format of a machine definition: a JSON object with the tape
//! under `tape`, the initial head position, written as a string, under
//! `initialTapePosition`, and an array of rule objects under `rules`.

use crate::decimal::{parse_position, position_value};
use crate::error::{loaded_view, LoadError};
use crate::json::{
    document_of, items_of, json_document, json_items, json_member, json_text, member, text_of_value,
};
use crate::machine::{option_view, rules_view, Direction, Machine, MachineView, Rule, RuleView};
use crate::tabular::direction_of;
use crate::text::{chars_of, lemma_filter_map_insert_none};
use vstd::prelude::*;
use vstd::string::StrSliceExecFns;

verus! {

/// The string under `key` in `value`, where there is one.
pub open spec fn text_at(value: serde_json::Value, key: Seq<char>) -> Option<Seq<char>> {
    json_text(json_member(value, key))
}

/// The symbol that a string stands for: its one character.
pub open spec fn symbol_of(text: Seq<char>) -> Option<char> {
    if text.len() == 1 {
        Some(text[0])
    } else {
        None
    }
}

/// The move that a string stands for: `L` or `R`, and nothing more.
pub open spec fn move_of(text: Seq<char>) -> Option<Direction> {
    if text.len() == 1 {
        direction_of(text[0])
    } else {
        None
    }
}

/// The rule that an entry of the array encodes. It needs a string under each
/// of `state`, `read`, `write`, `move` and `nextState`, of which `read` and
/// `write` hold one character and `move` is `L` or `R`. `None` for an entry
/// that is not of that form.
pub open spec fn structured_rule(entry: serde_json::Value) -> Option<RuleView> {
    let state = text_at(entry, "state"@);
    let read = text_at(entry, "read"@);
    let write = text_at(entry, "write"@);
    let movement = text_at(entry, "move"@);
    let next = text_at(entry, "nextState"@);
    if state is Some && read is Some && write is Some && movement is Some && next is Some
        && symbol_of(read->0) is Some && symbol_of(write->0) is Some && move_of(movement->0)
        is Some {
        Some(
            RuleView {
                from_state: state->0,
                read_symbol: symbol_of(read->0)->0,
                write_symbol: symbol_of(write->0)->0,
                direction: move_of(movement->0)->0,
                to_state: next->0,
            },
        )
    } else {
        None
    }
}

/// The decoding of one entry, as a function.
pub open spec fn entry_decoder() -> spec_fn(serde_json::Value) -> Option<RuleView> {
    |entry: serde_json::Value| structured_rule(entry)
}

/// The rules that the entries of an array encode: those of the entries that
/// encode one, in the order of the array.
pub open spec fn structured_rules(entries: Seq<serde_json::Value>) -> Seq<RuleView> {
    entries.filter_map(entry_decoder())
}

/// The tape of a document: the string under `tape`, or the empty tape where
/// there is none.
pub open spec fn structured_tape(document: serde_json::Value) -> Seq<char> {
    match text_at(document, "tape"@) {
        Some(tape) => tape,
        None => Seq::empty(),
    }
}

/// The initial head position of a document: the number that the string under
/// `initialTapePosition` writes, or 0 where there is no such string. `None`
/// where the string writes no head position.
pub open spec fn structured_position(document: serde_json::Value) -> Option<i64> {
    match text_at(document, "initialTapePosition"@) {
        Some(text) => position_value(text),
        None => Some(0i64),
    }
}

/// The machine that a document gives, or why it gives none.
pub open spec fn machine_of_document(document: serde_json::Value) -> Result<
    MachineView,
    LoadError,
> {
    match json_items(json_member(document, "rules"@)) {
        None => Err(LoadError::MissingRules),
        Some(entries) => match structured_position(document) {
            None => Err(LoadError::InvalidPosition),
            Some(position) => Ok(
                MachineView {
                    initial_head_position: position as int,
                    tape: structured_tape(document),
                    rules: structured_rules(entries),
                },
            ),
        },
    }
}

/// The machine that a structured definition gives, or why it gives none.
pub open spec fn structured_machine(text: Seq<char>) -> Result<MachineView, LoadError> {
    match json_document(text) {
        None => Err(LoadError::InvalidJson),
        Some(document) => machine_of_document(document),
    }
}

/// An entry that encodes no rule is dropped: with such an entry put anywhere
/// in the array, the rules are those of the other entries alone.
pub proof fn lemma_malformed_entry_is_dropped(
    entries: Seq<serde_json::Value>,
    at: int,
    entry: serde_json::Value,
)
    requires
        0 <= at <= entries.len(),
        structured_rule(entry) is None,
    ensures
        structured_rules(entries.insert(at, entry)) == structured_rules(entries),
{
    lemma_filter_map_insert_none(entries, entry_decoder(), at, entry);
}

/// The one character of `text`, if it has exactly one.
fn single_char(text: &str) -> (symbol: Option<char>)
    ensures
        symbol == symbol_of(text@),
{
    if text.unicode_len() == 1 {
        Some(text.get_char(0))
    } else {
        None
    }
}

/// The rule that `entry` encodes, if it encodes one.
pub fn rule_of_entry(entry: &serde_json::Value) -> (rule: Option<Rule>)
    ensures
        option_view(rule) == structured_rule(*entry),
{
    let state = match text_of_value(member(entry, "state")) {
        Some(text) => text,
        None => {
            return None;
        },
    };
    let read = match text_of_value(member(entry, "read")) {
        Some(text) => text,
        None => {
            return None;
        },
    };
    let write = match text_of_value(member(entry, "write")) {
        Some(text) => text,
        None => {
            return None;
        },
    };
    let movement = match text_of_value(member(entry, "move")) {
        Some(text) => text,
        None => {
            return None;
        },
    };
    let next = match text_of_value(member(entry, "nextState")) {
        Some(text) => text,
        None => {
            return None;
        },
    };
    let read_symbol = match single_char(read) {
        Some(symbol) => symbol,
        None => {
            return None;
        },
    };
    let write_symbol = match single_char(write) {
        Some(symbol) => symbol,
        None => {
            return None;
        },
    };
    let direction = match single_char(movement) {
        Some('L') => Direction::Left,
        Some('R') => Direction::Right,
        _ => {
            return None;
        },
    };
    Some(
        Rule {
            from_state: state.to_owned(),
            read_symbol,
            write_symbol,
            direction,
            to_state: next.to_owned(),
        },
    )
}

/// The machine that `document` gives. It fails where there is no array under
/// `rules`, and where the string under `initialTapePosition` is no head
/// position; an entry that encodes no rule is passed over in silence.
pub fn machine_from_document(document: &serde_json::Value) -> (loaded: Result<Machine, LoadError>)
    ensures
        loaded_view(loaded) == machine_of_document(*document),
{
    let entries = match items_of(member(document, "rules")) {
        Some(entries) => entries,
        None => {
            return Err(LoadError::MissingRules);
        },
    };
    let mut rules: Vec<Rule> = Vec::new();
    let mut at: usize = 0;
    proof {
        assert(entries@.take(0).filter_map(entry_decoder()) == Seq::<RuleView>::empty());
        assert(rules_view(rules@) == Seq::<RuleView>::empty());
    }
    while at < entries.len()
        invariant
            at <= entries.len(),
            rules_view(rules@) == entries@.take(at as int).filter_map(entry_decoder()),
        decreases entries.len() - at,
    {
        proof {
            entries@.lemma_filter_map_take_succ(entry_decoder(), at as int);
        }
        match rule_of_entry(&entries[at]) {
            Some(rule) => {
                proof {
                    assert(rules_view(rules@.push(rule)) == rules_view(rules@).push(rule@));
                    assert(rules_view(rules@).push(rule@) == rules_view(rules@) + seq![rule@]);
                }
                rules.push(rule);
            },
            None => {
                assert(rules_view(rules@) + Seq::<RuleView>::empty() == rules_view(rules@));
            },
        }
        at += 1;
    }
    assert(entries@.take(at as int) == entries@);
    let position = match text_of_value(member(document, "initialTapePosition")) {
        Some(text) => match parse_position(&chars_of(text)) {
            Some(position) => position,
            None => {
                return Err(LoadError::InvalidPosition);
            },
        },
        None => 0,
    };
    let tape = match text_of_value(member(document, "tape")) {
        Some(text) => chars_of(text),
        None => Vec::new(),
    };
    Ok(Machine { initial_head_position: position, tape, rules })
}

/// Reads a structured definition. It fails where the text is not JSON, and
/// then as [`machine_from_document`] does.
pub fn parse_json(contents: &str) -> (parsed: Result<Machine, LoadError>)
    ensures
        loaded_view(parsed) == structured_machine(contents@),
{
    match document_of(contents) {
        Ok(document) => machine_from_document(&document),
        Err(_) => Err(LoadError::InvalidJson),
    }
}

} // verus!
