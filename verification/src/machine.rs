//! The machine definition: an initial tape, an initial head position and an
//! ordered list of transition rules.

use crate::text::{chars_of, copy_range, lemma_subrange_all};
use vstd::prelude::*;
use vstd::string::StringExecFns;

verus! {

/// The way the head moves when a rule is applied.
#[derive(Clone, Copy, Debug, PartialEq, Eq, Structural)]
pub enum Direction {
    Left,
    Right,
}

impl Direction {
    /// The displacement of the head: -1 for `Left`, +1 for `Right`.
    pub open spec fn offset(self) -> int {
        match self {
            Direction::Left => -1,
            Direction::Right => 1,
        }
    }
}

/// One transition: in state `from_state`, reading `read_symbol`, write
/// `write_symbol`, move the head by `direction` and enter `to_state`.
#[derive(Debug, PartialEq, Eq)]
pub struct Rule {
    pub from_state: String,
    pub read_symbol: char,
    pub write_symbol: char,
    pub direction: Direction,
    pub to_state: String,
}

/// The mathematical content of a [`Rule`].
pub struct RuleView {
    pub from_state: Seq<char>,
    pub read_symbol: char,
    pub write_symbol: char,
    pub direction: Direction,
    pub to_state: Seq<char>,
}

impl View for Rule {
    type V = RuleView;

    open spec fn view(&self) -> RuleView {
        RuleView {
            from_state: self.from_state@,
            read_symbol: self.read_symbol,
            write_symbol: self.write_symbol,
            direction: self.direction,
            to_state: self.to_state@,
        }
    }
}

impl Clone for Rule {
    fn clone(&self) -> (copy: Rule)
        ensures
            copy@ == self@,
    {
        Rule {
            from_state: self.from_state.clone(),
            read_symbol: self.read_symbol,
            write_symbol: self.write_symbol,
            direction: self.direction,
            to_state: self.to_state.clone(),
        }
    }
}

impl Rule {
    /// A rule from its five parts.
    pub fn new(
        from_state: &str,
        read_symbol: char,
        write_symbol: char,
        direction: Direction,
        to_state: &str,
    ) -> (rule: Rule)
        ensures
            rule@ == (RuleView {
                from_state: from_state@,
                read_symbol,
                write_symbol,
                direction,
                to_state: to_state@,
            }),
    {
        Rule {
            from_state: String::from_str(from_state),
            read_symbol,
            write_symbol,
            direction,
            to_state: String::from_str(to_state),
        }
    }
}

/// The view of a rule that may be missing.
pub open spec fn option_view(rule: Option<Rule>) -> Option<RuleView> {
    match rule {
        Some(rule) => Some(rule@),
        None => None,
    }
}

/// The views of a list of rules, in the same order.
pub open spec fn rules_view(rules: Seq<Rule>) -> Seq<RuleView> {
    rules.map_values(|rule: Rule| rule@)
}

/// A machine definition. The tape holds one symbol per cell; the position may
/// be any integer, inside the tape or not.
#[derive(Debug, PartialEq, Eq)]
pub struct Machine {
    pub initial_head_position: i64,
    pub tape: Vec<char>,
    pub rules: Vec<Rule>,
}

/// The mathematical content of a [`Machine`].
pub struct MachineView {
    pub initial_head_position: int,
    pub tape: Seq<char>,
    pub rules: Seq<RuleView>,
}

impl View for Machine {
    type V = MachineView;

    open spec fn view(&self) -> MachineView {
        MachineView {
            initial_head_position: self.initial_head_position as int,
            tape: self.tape@,
            rules: rules_view(self.rules@),
        }
    }
}

impl Clone for Machine {
    fn clone(&self) -> (copy: Machine)
        ensures
            copy@ == self@,
    {
        let mut rules: Vec<Rule> = Vec::new();
        let mut at: usize = 0;
        while at < self.rules.len()
            invariant
                at <= self.rules.len(),
                rules_view(rules@) == rules_view(self.rules@).take(at as int),
            decreases self.rules.len() - at,
        {
            let copy = self.rules[at].clone();
            proof {
                assert(rules_view(rules@.push(copy)) == rules_view(rules@).push(copy@));
                assert(rules_view(self.rules@).take(at + 1) == rules_view(self.rules@).take(
                    at as int,
                ).push(self.rules@[at as int]@));
            }
            rules.push(copy);
            at += 1;
        }
        assert(rules_view(self.rules@).take(at as int) == rules_view(self.rules@));
        proof {
            lemma_subrange_all(self.tape@);
        }
        Machine {
            initial_head_position: self.initial_head_position,
            tape: copy_range(&self.tape, 0, self.tape.len()),
            rules,
        }
    }
}

impl Machine {
    /// A machine whose tape holds the characters of `tape`.
    pub fn new(initial_head_position: i64, tape: &str, rules: Vec<Rule>) -> (machine: Machine)
        ensures
            machine@ == (MachineView {
                initial_head_position: initial_head_position as int,
                tape: tape@,
                rules: rules_view(rules@),
            }),
    {
        Machine { initial_head_position, tape: chars_of(tape), rules }
    }

    /// The initial tape as text.
    pub fn tape_text(&self) -> (text: String)
        ensures
            text@ == self@.tape,
    {
        proof {
            lemma_subrange_all(self.tape@);
        }
        crate::text::text_of(&self.tape, 0, self.tape.len())
    }
}

} // verus!
