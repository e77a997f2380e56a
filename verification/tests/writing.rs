use turing_machine::machine::{Direction, Machine, Rule};
use turing_machine::tabular::parse_txt;
use turing_machine::text::{chars_of, copy_range, push_all, text_of};
use turing_machine::writer::to_tabular;

#[test]
fn writes_one_line_for_each_part() {
    let machine = Machine::new(
        -2,
        "1 0",
        vec![
            Rule::new("0", '1', '0', Direction::Right, "next"),
            Rule::new("next", '0', '1', Direction::Left, "0"),
        ],
    );
    assert_eq!(to_tabular(&machine), "1 0\n-2\n0 1 0 R next\nnext 0 1 L 0\n");
}

#[test]
fn writes_a_machine_without_rules() {
    assert_eq!(to_tabular(&Machine::new(12, "abc", Vec::new())), "abc\n12\n");
}

#[test]
fn reading_what_was_written_gives_the_machine() {
    let machines = vec![
        Machine::new(0, "100", vec![
            Rule::new("0", '1', '0', Direction::Right, "0"),
            Rule::new("0", '0', '1', Direction::Left, "0"),
        ]),
        Machine::new(i64::MIN, " x ", Vec::new()),
        Machine::new(i64::MAX, "λ", vec![Rule::new("q₀", 'λ', '_', Direction::Left, "halt")]),
        Machine::new(5, "tape\rwith return", vec![Rule::new("a", 'L', 'R', Direction::Right, "b")]),
    ];
    for machine in machines {
        assert_eq!(parse_txt(&to_tabular(&machine)), Ok(machine));
    }
}

#[test]
fn tape_and_position_survive_reading_and_writing() {
    for text in ["100\n0\n", "  a tape with spaces  \n-7\n", "x\n9223372036854775807\n"] {
        let machine = parse_txt(text).unwrap();
        assert_eq!(to_tabular(&machine), text);
    }
}

#[test]
fn characters_and_text_convert_both_ways() {
    let chars = chars_of("héllo");
    assert_eq!(chars, vec!['h', 'é', 'l', 'l', 'o']);
    assert_eq!(text_of(&chars, 0, 5), "héllo");
    assert_eq!(text_of(&chars, 1, 3), "él");
    assert_eq!(text_of(&chars, 2, 2), "");
    assert_eq!(copy_range(&chars, 3, 5), vec!['l', 'o']);
    let mut out = vec!['a'];
    push_all(&mut out, &chars);
    assert_eq!(out, vec!['a', 'h', 'é', 'l', 'l', 'o']);
    assert_eq!(chars_of(""), Vec::<char>::new());
}
