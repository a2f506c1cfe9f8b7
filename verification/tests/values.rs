use snek::helpers::{check_error, error_message, parse_input, print_result, show_word, FaultRecord};
use snek::helpers::{FALSE_VAL, MAX_INT, MIN_INT, TRUE_VAL};
use snek::text::{i64_to_string, u64_to_string};

#[test]
fn decimal_text() {
    assert_eq!(u64_to_string(0), "0");
    assert_eq!(u64_to_string(7), "7");
    assert_eq!(u64_to_string(10), "10");
    assert_eq!(u64_to_string(1234567890), "1234567890");
    assert_eq!(u64_to_string(u64::MAX), "18446744073709551615");
    assert_eq!(i64_to_string(-1), "-1");
    assert_eq!(i64_to_string(i64::MIN), "-9223372036854775808");
    assert_eq!(i64_to_string(i64::MAX), "9223372036854775807");
    assert_eq!(i64_to_string(-120), "-120");
}

#[test]
fn input_keywords_are_booleans() {
    assert_eq!(parse_input("true"), Ok(TRUE_VAL));
    assert_eq!(parse_input("false"), Ok(FALSE_VAL));
    assert_eq!(TRUE_VAL, 1);
    assert_eq!(FALSE_VAL, 3);
}

#[test]
fn input_numbers_are_doubled() {
    assert_eq!(parse_input("0"), Ok(0));
    assert_eq!(parse_input("5"), Ok(10));
    assert_eq!(parse_input("-5"), Ok(-10));
    assert_eq!(parse_input("+5"), Ok(10));
    assert_eq!(parse_input("007"), Ok(14));
    assert_eq!(parse_input("4611686018427387903"), Ok(9223372036854775806));
    assert_eq!(parse_input("-4611686018427387904"), Ok(i64::MIN));
    assert_eq!(MAX_INT, 4611686018427387903);
    assert_eq!(MIN_INT, -4611686018427387904);
}

#[test]
fn input_outside_the_range_is_refused() {
    assert_eq!(parse_input("4611686018427387904"), Err("Input number out of range".to_string()));
    assert_eq!(parse_input("-4611686018427387905"), Err("Input number out of range".to_string()));
    assert_eq!(parse_input("9223372036854775807"), Err("Input number out of range".to_string()));
    assert_eq!(parse_input("-9223372036854775808"), Err("Input number out of range".to_string()));
    assert_eq!(
        parse_input("9223372036854775808"),
        Err("Invalid input: 9223372036854775808".to_string())
    );
    assert_eq!(
        parse_input("-9223372036854775809"),
        Err("Invalid input: -9223372036854775809".to_string())
    );
    assert_eq!(
        parse_input("99999999999999999999999999999"),
        Err("Invalid input: 99999999999999999999999999999".to_string())
    );
}

#[test]
fn input_that_is_no_number_is_refused() {
    for text in ["", "-", "+", "abc", "12a", "1 2", "--1", "1.5", "True"] {
        assert_eq!(parse_input(text), Err(format!("Invalid input: {}", text)));
    }
}

#[test]
fn parse_input_agrees_with_the_standard_parser() {
    for text in ["17", "-17", "+17", "000", "-0", "4611686018427387903", "x1", "1x", "٣"] {
        let expected = match text.parse::<i64>() {
            Ok(n) if (MIN_INT..=MAX_INT).contains(&n) => Ok(n * 2),
            Ok(_) => Err("Input number out of range".to_string()),
            Err(_) => Err(format!("Invalid input: {}", text)),
        };
        assert_eq!(parse_input(text), expected);
    }
}

#[test]
fn results_are_shown() {
    assert_eq!(print_result(4), Ok("2".to_string()));
    assert_eq!(print_result(0), Ok("0".to_string()));
    assert_eq!(print_result(-10), Ok("-5".to_string()));
    assert_eq!(print_result(1), Ok("true".to_string()));
    assert_eq!(print_result(3), Ok("false".to_string()));
    assert_eq!(print_result(i64::MIN), Ok("-4611686018427387904".to_string()));
    assert_eq!(print_result(9223372036854775806), Ok("4611686018427387903".to_string()));
}

#[test]
fn an_odd_word_that_is_no_boolean_is_an_inconsistency() {
    assert_eq!(print_result(5), Err("Invalid boolean value: 5".to_string()));
    assert_eq!(print_result(-7), Err("Invalid boolean value: -7".to_string()));
    assert_eq!(print_result(-1), Err("Invalid boolean value: -1".to_string()));
    assert_eq!(show_word(5), "Unknown value: 5");
    assert_eq!(show_word(-3), "Unknown value: -3");
    assert_eq!(show_word(6), "3");
    assert_eq!(show_word(1), "true");
    assert_eq!(show_word(3), "false");
}

#[test]
fn shown_input_is_the_input() {
    for n in [0i64, 1, -1, 42, -42, MAX_INT, MIN_INT, 1 << 40] {
        let text = n.to_string();
        assert_eq!(print_result(parse_input(&text).unwrap()), Ok(text));
    }
}

#[test]
fn error_codes_have_messages() {
    assert_eq!(error_message(1), "overflow");
    assert_eq!(error_message(2), "invalid argument");
    assert_eq!(error_message(3), "bad cast");
    assert_eq!(error_message(4), "unknown error code: 4");
    assert_eq!(error_message(-1), "unknown error code: -1");
}

#[test]
fn a_recorded_error_is_taken_once() {
    let mut record = FaultRecord { has_error: true, error_code: 2 };
    assert_eq!(check_error(&mut record), Some("invalid argument".to_string()));
    assert_eq!(record, FaultRecord { has_error: false, error_code: 2 });
    assert_eq!(check_error(&mut record), None);
    let mut clear = FaultRecord { has_error: false, error_code: 1 };
    assert_eq!(check_error(&mut clear), None);
}
