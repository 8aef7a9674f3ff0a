use std::path::PathBuf;

use surfacetable::config::{Config, DEFAULT_OUTPUT_PATH, DEFAULT_SEPARATOR, DEFAULT_TARGET_PATH};
use surfacetable::ast::{Character, GroupData, PoseData, Root};
use surfacetable::prompt::{interpret_answer, Answer};
use surfacetable::whitelist::{failure_message, parse_number, split_at_commas, whitelist_in_csv, FieldError};

#[test]
fn whitelist_reads_numbers_between_commas() {
    assert_eq!(whitelist_in_csv("11"), Ok(vec![11]));
    assert_eq!(whitelist_in_csv("1111,1211,1222"), Ok(vec![1111, 1211, 1222]));
    assert_eq!(whitelist_in_csv("0,007,+5"), Ok(vec![0, 7, 5]));
    assert_eq!(whitelist_in_csv(&usize::MAX.to_string()), Ok(vec![usize::MAX]));
}

#[test]
fn whitelist_names_the_first_field_that_is_no_number() {
    assert_eq!(
        whitelist_in_csv(""),
        Err("Whitelist is invalid: element: 0: cannot parse integer from empty string".to_string())
    );
    assert_eq!(
        whitelist_in_csv("1,2,"),
        Err("Whitelist is invalid: element: 2: cannot parse integer from empty string".to_string())
    );
    assert_eq!(
        whitelist_in_csv("1,x,"),
        Err("Whitelist is invalid: element: 1: invalid digit found in string".to_string())
    );
    assert_eq!(
        whitelist_in_csv("1, 2"),
        Err("Whitelist is invalid: element: 1: invalid digit found in string".to_string())
    );
    assert_eq!(
        whitelist_in_csv("3,4,5,6,7,8,9,10,11,12,340282366920938463463374607431768211456"),
        Err("Whitelist is invalid: element: 10: number too large to fit in target type".to_string())
    );
}

#[test]
fn whitelist_agrees_with_the_parser_of_std() {
    let max = usize::MAX.to_string();
    let above = format!("{}0", max);
    let cases = [
        "", "0", "1", "+", "-", "+1", "-1", "++1", "+-1", "1+", "12a", "a12", " 1", "1 ", "１", "1_000",
        "00000000000000000000000000000001", "99999999999999999999999999", "99999999999999999999999999x",
        "x99999999999999999999999999", max.as_str(), above.as_str(), "+0", "1,2", "é", "0x10",
    ];
    for (index, case) in cases.iter().enumerate() {
        if case.contains(',') {
            continue;
        }
        let list = format!("{}{}", "7,".repeat(index), case);
        let expected = match case.parse::<usize>() {
            Ok(value) => {
                let mut numbers = vec![7; index];
                numbers.push(value);
                Ok(numbers)
            }
            Err(e) => Err(format!("Whitelist is invalid: element: {}: {}", index, e)),
        };
        assert_eq!(whitelist_in_csv(&list), expected);
    }
}

#[test]
fn fields_are_the_pieces_between_commas() {
    let text = |fields: Vec<Vec<char>>| -> Vec<String> { fields.iter().map(|f| f.iter().collect()).collect() };
    for case in ["", ",", "a", "a,b", ",a,,b,", "1,2,3", "é,ü"] {
        let expected: Vec<String> = case.split(',').map(|f| f.to_string()).collect();
        assert_eq!(text(split_at_commas(case)), expected);
    }
}

#[test]
fn every_field_error_has_its_input() {
    let chars = |s: &str| -> Vec<char> { s.chars().collect() };
    assert_eq!(parse_number(&chars("")), Err(FieldError::Empty));
    assert_eq!(parse_number(&chars("+")), Err(FieldError::InvalidDigit));
    assert_eq!(parse_number(&chars("4 2")), Err(FieldError::InvalidDigit));
    assert_eq!(parse_number(&chars("340282366920938463463374607431768211456")), Err(FieldError::TooLarge));
    assert_eq!(parse_number(&chars("42")), Ok(42));
    assert_eq!(
        failure_message(12, FieldError::TooLarge),
        "Whitelist is invalid: element: 12: number too large to fit in target type"
    );
}

#[test]
fn answers_are_read_without_regard_to_case_and_space() {
    for line in ["y", "Y", "yes", "YES", "Yes\n", "  y \r\n", "\tyEs\u{3000}"] {
        assert_eq!(interpret_answer(line), Answer::Overwrite);
    }
    for line in ["n", "N", "no", "NO", "No\n", "  n \r\n", "\u{a0}nO\u{2028}"] {
        assert_eq!(interpret_answer(line), Answer::Quit);
    }
    for line in ["", "\n", "ye", "yess", "y es", "nope", "ｙ", "yes.", "0", "ÿ"] {
        assert_eq!(interpret_answer(line), Answer::Unclear);
    }
}

#[test]
fn answers_are_what_trim_and_lower_case_of_std_give() {
    let expected = |line: &str| match line.trim().to_ascii_lowercase().as_str() {
        "y" | "yes" => Answer::Overwrite,
        "n" | "no" => Answer::Quit,
        _ => Answer::Unclear,
    };
    for code in 0..=0x10ffffu32 {
        if let Some(c) = char::from_u32(code) {
            let line = format!("{}y{}", c, c);
            assert_eq!(interpret_answer(&line), expected(&line));
            let line = format!("n{}", c);
            assert_eq!(interpret_answer(&line), expected(&line));
        }
    }
    for word in ["yEs", "YeS", "yeS", "nO", "No", "Yes", "yES"] {
        assert_eq!(interpret_answer(word), expected(word));
    }
}

#[test]
fn settings_give_back_what_they_were_made_of() {
    let config = Config::new(
        PathBuf::from(DEFAULT_TARGET_PATH),
        PathBuf::from(DEFAULT_OUTPUT_PATH),
        true,
        Some(vec![11, 22]),
        DEFAULT_SEPARATOR.to_string(),
    );
    assert_eq!(config.input(), &PathBuf::from("./surfaces.yaml"));
    assert_eq!(config.output(), &PathBuf::from("./surfacetable.txt"));
    assert_eq!(config.force(), &true);
    assert_eq!(config.whitelist(), Some(&vec![11, 22]));
    assert_eq!(config.separator(), "-");
    let config = Config::new(PathBuf::from("in"), PathBuf::from("out"), false, None, "::".to_string());
    assert_eq!(config.force(), &false);
    assert_eq!(config.whitelist(), None);
    assert_eq!(config.separator(), "::");
}

#[test]
fn tree_gives_back_what_it_was_made_of() {
    let pose = PoseData::new("smile".to_string(), "element0,overlay".to_string());
    assert_eq!(pose.name(), "smile");
    assert_eq!(pose.text(), "element0,overlay");
    let group = GroupData::new("face".to_string(), vec![pose]);
    assert_eq!(group.group(), "face");
    assert_eq!(group.details().len(), 1);
    assert_eq!(group.details()[0].name(), "smile");
    let character = Character::new(Some("base".to_string()), vec![group]);
    assert_eq!(character.base(), Some(&"base".to_string()));
    assert_eq!(character.parts().len(), 1);
    let root = Root::new(None, vec![character, Character::new(None, Vec::new())]);
    assert_eq!(root.raw(), None);
    assert_eq!(root.characters().len(), 2);
    assert_eq!(root.characters()[1].base(), None);
    assert_eq!(root.characters()[0].parts()[0].group(), "face");
}
