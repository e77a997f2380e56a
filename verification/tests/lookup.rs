use turing_machine::machine::{Direction, Rule};
use turing_machine::table::find_rule;

fn label(text: &str) -> String {
    text.to_string()
}

#[test]
fn first_of_two_matching_rules_wins() {
    let rules = vec![
        Rule::new("1", 'a', 'x', Direction::Left, "1"),
        Rule::new("0", 'a', 'b', Direction::Right, "first"),
        Rule::new("0", 'a', 'c', Direction::Left, "second"),
    ];
    let found = find_rule(&rules, &label("0"), 'a').unwrap();
    assert_eq!(found, &rules[1]);
    assert_eq!(found.write_symbol, 'b');
    assert_eq!(found.to_state, "first");
}

#[test]
fn lookup_needs_state_and_symbol() {
    let rules = vec![
        Rule::new("0", 'a', 'b', Direction::Right, "1"),
        Rule::new("1", 'b', 'a', Direction::Left, "0"),
    ];
    assert_eq!(find_rule(&rules, &label("0"), 'b'), None);
    assert_eq!(find_rule(&rules, &label("1"), 'a'), None);
    assert_eq!(find_rule(&rules, &label("2"), 'a'), None);
    assert_eq!(find_rule(&rules, &label("1"), 'b'), Some(&rules[1]));
}

#[test]
fn lookup_in_no_rules_finds_nothing() {
    let rules: Vec<Rule> = Vec::new();
    assert_eq!(find_rule(&rules, &label("0"), '1'), None);
}

#[test]
fn state_labels_are_compared_whole() {
    let rules = vec![
        Rule::new("q", '1', '0', Direction::Right, "a"),
        Rule::new("q1", '1', '0', Direction::Right, "b"),
    ];
    assert_eq!(find_rule(&rules, &label("q1"), '1'), Some(&rules[1]));
    assert_eq!(find_rule(&rules, &label(""), '1'), None);
}

#[test]
fn rule_keeps_its_parts() {
    let rule = Rule::new("from", 'r', 'w', Direction::Left, "to");
    assert_eq!(rule.from_state, "from");
    assert_eq!(rule.read_symbol, 'r');
    assert_eq!(rule.write_symbol, 'w');
    assert_eq!(rule.direction, Direction::Left);
    assert_eq!(rule.to_state, "to");
    assert_eq!(rule.clone(), rule);
}

#[test]
fn copy_of_a_machine_equals_it() {
    let machine = turing_machine::machine::Machine::new(
        -4,
        "a b",
        vec![
            Rule::new("0", 'a', 'b', Direction::Right, "1"),
            Rule::new("1", 'b', 'a', Direction::Left, "0"),
        ],
    );
    let copy = machine.clone();
    assert_eq!(copy, machine);
    assert_eq!(copy.initial_head_position, -4);
    assert_eq!(copy.tape, vec!['a', ' ', 'b']);
    assert_eq!(copy.rules.len(), 2);
}
