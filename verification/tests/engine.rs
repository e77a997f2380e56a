use turing_machine::engine::{run_turing_machine, Action, Halt, Outcome, RunState};
use turing_machine::machine::{Direction, Machine, Rule};
use turing_machine::structured::parse_json;
use turing_machine::tabular::parse_txt;

fn flipper() -> Machine {
    Machine::new(
        0,
        "100",
        vec![
            Rule::new("0", '1', '0', Direction::Right, "0"),
            Rule::new("0", '0', '1', Direction::Left, "0"),
        ],
    )
}

#[test]
fn run_starts_at_the_initial_configuration() {
    let machine = Machine::new(7, "abc", Vec::new());
    let start = RunState::new(&machine);
    assert_eq!(start.head, 7);
    assert_eq!(start.state, "0");
    assert_eq!(start.tape, vec!['a', 'b', 'c']);
    assert_eq!(machine.tape, vec!['a', 'b', 'c']);
}

#[test]
fn tabular_scenario_step_by_step() {
    let machine = parse_txt("100\n0\n0 1 0 R 0\n0 0 1 L 0\n").unwrap();
    assert_eq!(machine, flipper());
    let mut run = RunState::new(&machine);

    assert_eq!(run.step(&machine.rules), Outcome::Applied);
    assert_eq!(run.tape_text(), "000");
    assert_eq!(run.head, 1);
    assert_eq!(run.state, "0");

    assert_eq!(run.step(&machine.rules), Outcome::Applied);
    assert_eq!(run.tape_text(), "010");
    assert_eq!(run.head, 0);

    assert_eq!(run.step(&machine.rules), Outcome::Applied);
    assert_eq!(run.tape_text(), "110");
    assert_eq!(run.head, -1);

    assert_eq!(run.step(&machine.rules), Outcome::Halted(Halt::OutOfBounds));
    assert_eq!(run.tape_text(), "110");
    assert_eq!(run.head, -1);
    assert_eq!(run.state, "0");
    assert_eq!(machine.tape_text(), "100");
}

#[test]
fn tabular_scenario_run_to_the_end() {
    let run = run_turing_machine(&flipper(), 1000);
    assert_eq!(run.steps, 3);
    assert_eq!(run.halt, Some(Halt::OutOfBounds));
    assert_eq!(run.last.tape_text(), "110");
    assert_eq!(run.last.head, -1);
    assert_eq!(run.last.state, "0");
}

#[test]
fn step_limit_ends_a_run() {
    let run = run_turing_machine(&flipper(), 2);
    assert_eq!(run.steps, 2);
    assert_eq!(run.halt, None);
    assert_eq!(run.last.tape_text(), "010");
    assert_eq!(run.last.head, 0);

    let none = run_turing_machine(&flipper(), 0);
    assert_eq!(none.steps, 0);
    assert_eq!(none.halt, None);
    assert_eq!(none.last.tape_text(), "100");
}

#[test]
fn halt_is_reported_at_the_limit() {
    let run = run_turing_machine(&flipper(), 3);
    assert_eq!(run.steps, 3);
    assert_eq!(run.halt, Some(Halt::OutOfBounds));
    assert_eq!(run.last.tape_text(), "110");
}

#[test]
fn endless_machine_stops_at_the_limit() {
    let machine = Machine::new(
        0,
        "ab",
        vec![
            Rule::new("0", 'a', 'a', Direction::Right, "1"),
            Rule::new("1", 'b', 'b', Direction::Left, "0"),
        ],
    );
    let run = run_turing_machine(&machine, 10_001);
    assert_eq!(run.steps, 10_001);
    assert_eq!(run.halt, None);
    assert_eq!(run.last.head, 1);
    assert_eq!(run.last.state, "1");
    assert_eq!(run.last.tape_text(), "ab");
}

#[test]
fn structured_scenario_without_rules() {
    let machine = parse_json("{\"rules\": [], \"tape\": \"A\"}").unwrap();
    let run = run_turing_machine(&machine, 100);
    assert_eq!(run.steps, 0);
    assert_eq!(run.halt, Some(Halt::NoRule));
    assert_eq!(run.last.tape_text(), "A");
    assert_eq!(run.last.head, 0);
}

#[test]
fn unmatched_start_writes_nothing() {
    let machine = Machine::new(
        1,
        "abc",
        vec![
            Rule::new("0", 'a', 'x', Direction::Right, "0"),
            Rule::new("1", 'b', 'x', Direction::Right, "0"),
        ],
    );
    let mut run = RunState::new(&machine);
    assert_eq!(run.status(&machine.rules), Some(Halt::NoRule));
    assert_eq!(run.step(&machine.rules), Outcome::Halted(Halt::NoRule));
    assert_eq!(run.tape, machine.tape);
    assert_eq!(run.head, 1);
    let whole = run_turing_machine(&machine, 50);
    assert_eq!(whole.steps, 0);
    assert_eq!(whole.halt, Some(Halt::NoRule));
    assert_eq!(whole.last.tape_text(), "abc");
}

#[test]
fn start_outside_the_tape_halts_at_once() {
    let rules = vec![Rule::new("0", 'a', 'x', Direction::Right, "0")];
    for position in [-1i64, 3, 4, i64::MIN, i64::MAX] {
        let machine = Machine::new(position, "aaa", rules.clone());
        let run = run_turing_machine(&machine, 50);
        assert_eq!(run.steps, 0);
        assert_eq!(run.halt, Some(Halt::OutOfBounds));
        assert_eq!(run.last.tape_text(), "aaa");
        assert_eq!(run.last.head, position as i128);
    }
}

#[test]
fn empty_tape_halts_at_once() {
    let machine = Machine::new(0, "", vec![Rule::new("0", 'a', 'x', Direction::Right, "0")]);
    let mut run = RunState::new(&machine);
    assert_eq!(run.step(&machine.rules), Outcome::Halted(Halt::OutOfBounds));
    assert_eq!(run.tape_text(), "");
}

#[test]
fn one_step_writes_one_cell_and_moves_one_cell() {
    let machine = Machine::new(
        2,
        "abcde",
        vec![
            Rule::new("0", 'c', 'X', Direction::Left, "seen"),
            Rule::new("seen", 'b', 'Y', Direction::Right, "back"),
        ],
    );
    let mut run = RunState::new(&machine);
    assert_eq!(run.step(&machine.rules), Outcome::Applied);
    assert_eq!(run.tape, vec!['a', 'b', 'X', 'd', 'e']);
    assert_eq!(run.head, 1);
    assert_eq!(run.state, "seen");
    assert_eq!(run.step(&machine.rules), Outcome::Applied);
    assert_eq!(run.tape, vec!['a', 'Y', 'X', 'd', 'e']);
    assert_eq!(run.head, 2);
    assert_eq!(run.state, "back");
    assert_eq!(run.status(&machine.rules), Some(Halt::NoRule));
}

#[test]
fn head_may_leave_the_tape_on_the_right() {
    let machine = Machine::new(
        0,
        "11",
        vec![Rule::new("0", '1', '0', Direction::Right, "0")],
    );
    let run = run_turing_machine(&machine, 10);
    assert_eq!(run.steps, 2);
    assert_eq!(run.halt, Some(Halt::OutOfBounds));
    assert_eq!(run.last.head, 2);
    assert_eq!(run.last.tape_text(), "00");
}

#[test]
fn symbols_beyond_ascii_are_single_cells() {
    let machine = Machine::new(
        1,
        "αβγ",
        vec![Rule::new("0", 'β', 'λ', Direction::Right, "0")],
    );
    let run = run_turing_machine(&machine, 10);
    assert_eq!(run.steps, 1);
    assert_eq!(run.last.tape_text(), "αλγ");
    assert_eq!(run.halt, Some(Halt::NoRule));
}

#[test]
fn tie_between_rules_goes_to_the_first_in_a_run() {
    let machine = Machine::new(
        0,
        "a",
        vec![
            Rule::new("0", 'a', '1', Direction::Right, "0"),
            Rule::new("0", 'a', '2', Direction::Right, "0"),
        ],
    );
    let run = run_turing_machine(&machine, 10);
    assert_eq!(run.last.tape_text(), "1");
}

#[test]
fn advancing_gives_each_tape_to_show_and_then_the_halt() {
    let machine = flipper();
    let mut run = RunState::new(&machine);
    let mut shown = Vec::new();
    let halt = loop {
        match run.advance(&machine.rules) {
            Action::Render(tape) => shown.push(tape),
            Action::Stop(halt) => break halt,
        }
    };
    assert_eq!(shown, vec!["000", "010", "110"]);
    assert_eq!(halt, Halt::OutOfBounds);
    assert_eq!(run.advance(&machine.rules), Action::Stop(Halt::OutOfBounds));
    assert_eq!(run.tape_text(), "110");
}

#[test]
fn advancing_a_stopped_run_shows_nothing() {
    let machine = Machine::new(0, "A", Vec::new());
    let mut run = RunState::new(&machine);
    assert_eq!(run.advance(&machine.rules), Action::Stop(Halt::NoRule));
    assert_eq!(run.tape_text(), "A");
}
