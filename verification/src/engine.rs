//! The execution engine: one machine's run state and the rule that takes it
//! from one configuration to the next.

use crate::machine::{rules_view, Direction, Machine, MachineView, Rule, RuleView};
use crate::table::{find_rule, first_match, lemma_no_match, matching_rule, rule_matches};
use crate::text::{lemma_subrange_all, text_of};
use vstd::prelude::*;

verus! {

/// Why a run stops.
#[derive(Clone, Copy, Debug, PartialEq, Eq, Structural)]
pub enum Halt {
    /// The head is outside the tape.
    OutOfBounds,
    /// No rule applies to the current state and the symbol under the head.
    NoRule,
}

/// What one call of [`RunState::step`] did.
#[derive(Clone, Copy, Debug, PartialEq, Eq, Structural)]
pub enum Outcome {
    /// A rule was applied: the tape has a new content to show.
    Applied,
    /// The run had stopped already, and nothing was changed.
    Halted(Halt),
}

/// What the caller of [`RunState::advance`] is to do next.
#[derive(Debug, PartialEq, Eq)]
pub enum Action {
    /// Show this text, the tape after the step, on the run's line; then
    /// advance again.
    Render(String),
    /// Stop: the run has ended, for this reason.
    Stop(Halt),
}

/// A configuration of a machine: where the head is, the state label, and what
/// the tape holds.
pub struct Configuration {
    pub head: int,
    pub state: Seq<char>,
    pub tape: Seq<char>,
}

/// The label of the state in which every run starts.
pub open spec fn initial_label() -> Seq<char> {
    seq!['0']
}

/// The configuration in which a run of `machine` starts.
pub open spec fn initial_configuration(machine: MachineView) -> Configuration {
    Configuration {
        head: machine.initial_head_position,
        state: initial_label(),
        tape: machine.tape,
    }
}

impl Configuration {
    /// Whether the head is on a cell of the tape.
    pub open spec fn in_bounds(self) -> bool {
        0 <= self.head < self.tape.len()
    }

    /// Why the run stops in this configuration, or `None` if a rule applies.
    pub open spec fn halt(self, rules: Seq<RuleView>) -> Option<Halt> {
        if !self.in_bounds() {
            Some(Halt::OutOfBounds)
        } else if first_match(rules, self.state, self.tape[self.head]) is None {
            Some(Halt::NoRule)
        } else {
            None
        }
    }

    /// The configuration after `rule` is applied: the symbol is written under
    /// the head, then the head moves and the state changes.
    pub open spec fn apply(self, rule: RuleView) -> Configuration {
        Configuration {
            head: self.head + rule.direction.offset(),
            state: rule.to_state,
            tape: self.tape.update(self.head, rule.write_symbol),
        }
    }

    /// The next configuration: the first matching rule applied, or this
    /// configuration itself where the run has stopped.
    pub open spec fn step(self, rules: Seq<RuleView>) -> Configuration {
        match self.halt(rules) {
            Some(_) => self,
            None => self.apply(rules[first_match(rules, self.state, self.tape[self.head])->0]),
        }
    }

    /// The configuration after `count` steps.
    pub open spec fn run(self, rules: Seq<RuleView>, count: nat) -> Configuration
        decreases count,
    {
        if count == 0 {
            self
        } else {
            self.run(rules, (count - 1) as nat).step(rules)
        }
    }

    /// The number of rules applied from this configuration until the run
    /// stops, or `limit` if it has not stopped by then.
    pub open spec fn steps_within(self, rules: Seq<RuleView>, limit: nat) -> nat
        decreases limit,
    {
        if limit == 0 || self.halt(rules) is Some {
            0
        } else {
            1 + self.step(rules).steps_within(rules, (limit - 1) as nat)
        }
    }
}

/// One step of a run that has not stopped applies the first rule that matches
/// the state and the symbol under the head. It writes that rule's symbol into
/// the cell under the head and into no other cell, leaves the tape as long as
/// it was, moves the head by exactly one cell in the rule's direction, and
/// enters the rule's next state.
pub proof fn lemma_step_effect(before: Configuration, rules: Seq<RuleView>)
    requires
        before.halt(rules) is None,
    ensures
        matching_rule(rules, before.state, before.tape[before.head]) is Some,
        ({
            let rule = matching_rule(rules, before.state, before.tape[before.head])->0;
            let after = before.step(rules);
            &&& rule_matches(rule, before.state, before.tape[before.head])
            &&& after.tape.len() == before.tape.len()
            &&& after.tape[before.head] == rule.write_symbol
            &&& forall|cell: int|
                0 <= cell < before.tape.len() && cell != before.head ==> after.tape[cell]
                    == before.tape[cell]
            &&& after.head == before.head + rule.direction.offset()
            &&& after.head == before.head - 1 || after.head == before.head + 1
            &&& after.state == rule.to_state
        }),
{
    lemma_no_match(rules, before.state, before.tape[before.head]);
}

/// A run that has stopped stays where it is: further steps change neither
/// tape, head nor state.
pub proof fn lemma_halted_stays(stopped: Configuration, rules: Seq<RuleView>, count: nat)
    requires
        stopped.halt(rules) is Some,
    ensures
        stopped.run(rules, count) == stopped,
        stopped.steps_within(rules, count) == 0,
    decreases count,
{
    if count > 0 {
        lemma_halted_stays(stopped, rules, (count - 1) as nat);
    }
}

/// No step changes the length of the tape.
pub proof fn lemma_run_keeps_length(start: Configuration, rules: Seq<RuleView>, count: nat)
    ensures
        start.run(rules, count).tape.len() == start.tape.len(),
    decreases count,
{
    if count > 0 {
        lemma_run_keeps_length(start, rules, (count - 1) as nat);
    }
}

/// Where no rule applies to the initial state and the symbol under the initial
/// head position, the run stops at once for want of a rule: no rule is
/// applied, nothing is written, and the tape stays the initial tape, however
/// many steps are asked for.
pub proof fn lemma_unmatched_start_halts(machine: MachineView, count: nat)
    requires
        0 <= machine.initial_head_position < machine.tape.len(),
        forall|index: int|
            0 <= index < machine.rules.len() ==> !rule_matches(
                #[trigger] machine.rules[index],
                initial_label(),
                machine.tape[machine.initial_head_position],
            ),
    ensures
        initial_configuration(machine).halt(machine.rules) == Some(Halt::NoRule),
        initial_configuration(machine).steps_within(machine.rules, count) == 0,
        initial_configuration(machine).run(machine.rules, count) == initial_configuration(machine),
        initial_configuration(machine).run(machine.rules, count).tape == machine.tape,
{
    lemma_no_match(
        machine.rules,
        initial_label(),
        machine.tape[machine.initial_head_position],
    );
    lemma_halted_stays(initial_configuration(machine), machine.rules, count);
}

/// Where the initial head position is outside the tape, the run stops at once
/// as out of bounds: no rule is applied and nothing is written, however many
/// steps are asked for.
pub proof fn lemma_start_out_of_bounds_halts(machine: MachineView, count: nat)
    requires
        !(0 <= machine.initial_head_position < machine.tape.len()),
    ensures
        initial_configuration(machine).halt(machine.rules) == Some(Halt::OutOfBounds),
        initial_configuration(machine).steps_within(machine.rules, count) == 0,
        initial_configuration(machine).run(machine.rules, count) == initial_configuration(machine),
        initial_configuration(machine).run(machine.rules, count).tape == machine.tape,
{
    lemma_halted_stays(initial_configuration(machine), machine.rules, count);
}

/// The run state of one machine. It belongs to the run alone.
#[derive(Debug, PartialEq, Eq)]
pub struct RunState {
    /// The position of the head. The type is wide enough for one cell past
    /// either end of any tape.
    pub head: i128,
    pub state: String,
    pub tape: Vec<char>,
}

impl View for RunState {
    type V = Configuration;

    open spec fn view(&self) -> Configuration {
        Configuration { head: self.head as int, state: self.state@, tape: self.tape@ }
    }
}

impl RunState {
    /// The state in which a run of `machine` starts: the head at the initial
    /// position, the label `"0"`, and a copy of the tape.
    pub fn new(machine: &Machine) -> (start: RunState)
        ensures
            start@ == initial_configuration(machine@),
    {
        let mut state = String::new();
        state.push('0');
        let mut tape: Vec<char> = Vec::new();
        let mut at: usize = 0;
        while at < machine.tape.len()
            invariant
                at <= machine.tape.len(),
                tape@ == machine.tape@.take(at as int),
            decreases machine.tape.len() - at,
        {
            tape.push(machine.tape[at]);
            at += 1;
        }
        assert(machine.tape@.take(at as int) == machine.tape@);
        assert(state@ == initial_label());
        RunState { head: machine.initial_head_position as i128, state, tape }
    }

    /// Why the run has stopped, or `None` if a rule applies.
    pub fn status(&self, rules: &Vec<Rule>) -> (halt: Option<Halt>)
        ensures
            halt == self@.halt(rules_view(rules@)),
    {
        if self.head < 0 || self.head >= self.tape.len() as i128 {
            return Some(Halt::OutOfBounds);
        }
        let symbol = self.tape[self.head as usize];
        match find_rule(rules, &self.state, symbol) {
            Some(_) => None,
            None => Some(Halt::NoRule),
        }
    }

    /// Takes one step. Where the head is on the tape and a rule applies, the
    /// first such rule is applied: its symbol is written under the head, the
    /// state becomes its next state, and the head moves by one cell. Otherwise
    /// nothing changes, and the reason is returned.
    pub fn step(&mut self, rules: &Vec<Rule>) -> (outcome: Outcome)
        ensures
            final(self)@ == old(self)@.step(rules_view(rules@)),
            outcome == (match old(self)@.halt(rules_view(rules@)) {
                Some(halt) => Outcome::Halted(halt),
                None => Outcome::Applied,
            }),
    {
        if self.head < 0 || self.head >= self.tape.len() as i128 {
            return Outcome::Halted(Halt::OutOfBounds);
        }
        let at = self.head as usize;
        let symbol = self.tape[at];
        match find_rule(rules, &self.state, symbol) {
            None => Outcome::Halted(Halt::NoRule),
            Some(rule) => {
                self.tape.set(at, rule.write_symbol);
                self.state = rule.to_state.clone();
                self.head = match rule.direction {
                    Direction::Left => self.head - 1,
                    Direction::Right => self.head + 1,
                };
                Outcome::Applied
            },
        }
    }

    /// Takes one step, as [`RunState::step`] does, and says what is to be done
    /// with it: after a rule was applied, the new tape is to be shown; where
    /// the run has stopped, there is nothing more to do.
    pub fn advance(&mut self, rules: &Vec<Rule>) -> (action: Action)
        ensures
            final(self)@ == old(self)@.step(rules_view(rules@)),
            match action {
                Action::Render(text) => old(self)@.halt(rules_view(rules@)) is None && text@
                    == final(self)@.tape,
                Action::Stop(halt) => old(self)@.halt(rules_view(rules@)) == Some(halt),
            },
    {
        match self.step(rules) {
            Outcome::Applied => Action::Render(self.tape_text()),
            Outcome::Halted(halt) => Action::Stop(halt),
        }
    }

    /// The tape as text: what is shown after a step.
    pub fn tape_text(&self) -> (text: String)
        ensures
            text@ == self@.tape,
    {
        proof {
            lemma_subrange_all(self.tape@);
        }
        text_of(&self.tape, 0, self.tape.len())
    }
}

/// How a run within a step limit ended.
#[derive(Debug, PartialEq, Eq)]
pub struct Run {
    /// The state in which the run was left.
    pub last: RunState,
    /// The number of rules applied.
    pub steps: u64,
    /// Why the run stopped, or `None` if the limit ended it.
    pub halt: Option<Halt>,
}

/// Runs `machine` from its initial configuration until it stops or
/// `step_limit` rules have been applied, whichever comes first.
pub fn run_turing_machine(machine: &Machine, step_limit: u64) -> (run: Run)
    ensures
        run.steps == initial_configuration(machine@).steps_within(
            machine@.rules,
            step_limit as nat,
        ),
        run.last@ == initial_configuration(machine@).run(machine@.rules, run.steps as nat),
        run.halt == run.last@.halt(machine@.rules),
{
    let mut last = RunState::new(machine);
    let mut steps: u64 = 0;
    let ghost rules = machine@.rules;
    let ghost start = initial_configuration(machine@);
    loop
        invariant
            rules == rules_view(machine.rules@),
            start == initial_configuration(machine@),
            steps <= step_limit,
            last@ == start.run(rules, steps as nat),
            start.steps_within(rules, step_limit as nat) == steps + last@.steps_within(
                rules,
                (step_limit - steps) as nat,
            ),
        decreases step_limit - steps,
    {
        if steps == step_limit {
            let halt = last.status(&machine.rules);
            return Run { last, steps, halt };
        }
        match last.step(&machine.rules) {
            Outcome::Halted(halt) => {
                return Run { last, steps, halt: Some(halt) };
            },
            Outcome::Applied => {
                steps += 1;
            },
        }
    }
}

} // verus!
