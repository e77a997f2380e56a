use turing_machine::error::LoadError;
use turing_machine::format::{format_of_extension, parse_definition, Format};
use turing_machine::machine::{Direction, Machine, Rule};

#[test]
fn extensions_stand_for_formats() {
    assert_eq!(format_of_extension("txt"), Some(Format::Tabular));
    assert_eq!(format_of_extension("json"), Some(Format::Structured));
    for other in ["", "TXT", "Json", "text", "tx", "jso", "jsonl", "txt ", ".txt", "yaml", "τχτ"] {
        assert_eq!(format_of_extension(other), None, "{:?}", other);
    }
}

#[test]
fn contents_are_read_in_the_format_of_the_extension() {
    let expected = Machine::new(1, "ab", vec![Rule::new("0", 'b', 'a', Direction::Left, "1")]);
    assert_eq!(parse_definition(Some("txt"), "ab\n1\n0 b a L 1\n").as_ref(), Ok(&expected));
    assert_eq!(
        parse_definition(
            Some("json"),
            "{\"tape\": \"ab\", \"initialTapePosition\": \"1\", \"rules\": [{\"state\": \"0\", \"read\": \"b\", \"write\": \"a\", \"move\": \"L\", \"nextState\": \"1\"}]}"
        ),
        Ok(expected)
    );
}

#[test]
fn same_contents_differ_by_extension() {
    assert_eq!(parse_definition(Some("json"), "ab\n1\n"), Err(LoadError::InvalidJson));
    assert_eq!(parse_definition(Some("txt"), "{\"rules\": []}"), Err(LoadError::MissingHeader));
}

#[test]
fn other_extensions_are_not_supported() {
    assert_eq!(parse_definition(Some("yaml"), "ab\n1\n"), Err(LoadError::UnsupportedExtension));
    assert_eq!(parse_definition(Some("TXT"), "ab\n1\n"), Err(LoadError::UnsupportedExtension));
    assert_eq!(parse_definition(Some(""), "ab\n1\n"), Err(LoadError::UnsupportedExtension));
    assert_eq!(parse_definition(None, "ab\n1\n"), Err(LoadError::UnsupportedExtension));
}

#[test]
fn each_error_has_its_message() {
    assert_eq!(LoadError::Unreadable.message(), "Something went wrong with reading file");
    assert_eq!(LoadError::UnsupportedExtension.message(), "Unsupported file extension");
    assert_eq!(LoadError::InvalidJson.message(), "Something went wrong with parsing json data");
    assert_eq!(LoadError::MissingRules.message(), "Rules are missing from json data");
    assert_eq!(LoadError::MissingHeader.message(), "Tape or initial position is missing");
    assert_eq!(LoadError::InvalidPosition.message(), "Initial position is not an integer");
}
