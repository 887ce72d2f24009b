use rusty_man_computer::value::Value;
use rusty_man_computer::Output;
use rusty_man_computer::OutputConfig;

#[test]
fn output_basic_line_wrapping() {
    let mut output = Output::new(OutputConfig {
        immediately_print_output: false,
    });
    output.push_char('a');
    output.push_char('b');
    output.push_char('c');
    output.push_char('d');
    output.push_char('e');
    let lines = output.split_into_lines(4);
    assert_eq!(lines, vec!["abcd", "e"]);
}

#[test]
fn output_numbers_on_separate_lines() {
    let mut output = Output::new(OutputConfig {
        immediately_print_output: false,
    });
    output.push_int(Value::from(1));
    output.push_int(Value::from(2));
    output.push_int(Value::from(3));
    let lines = output.split_into_lines(4);
    assert_eq!(lines, vec!["1", "2", "3"]);
}

#[test]
fn output_mixed_numbers_and_characters() {
    let mut output = Output::new(OutputConfig {
        immediately_print_output: false,
    });
    // Part of an ASCII table
    output.push_int(Value::from(33));
    output.push_char(' ');
    output.push_char('!');
    output.push_int(Value::from(34));
    output.push_char(' ');
    output.push_char('"');
    let lines = output.split_into_lines(4);
    assert_eq!(lines, vec!["33 !", "34 \""]);
}

#[test]
fn output_numbers_on_separate_lines_at_any_width() {
    let mut output = Output::new(OutputConfig {
        immediately_print_output: false,
    });
    output.push_int(Value::from(1));
    output.push_int(Value::from(2));
    output.push_int(Value::from(3));
    assert_eq!(output.read_all(), "1\n2\n3");
    for width in 1..50 {
        assert_eq!(output.split_into_lines(width), vec!["1", "2", "3"]);
    }
    assert_eq!(output.split_into_lines(isize::MAX), vec!["1", "2", "3"]);
}

#[test]
fn output_of_nothing_is_one_empty_line() {
    let output = Output::new(OutputConfig {
        immediately_print_output: true,
    });
    assert!(output.immediately_print_output());
    assert_eq!(output.read_all(), "");
    assert_eq!(output.split_into_lines(4), vec![""]);
    assert!(output.chars().is_empty());
}

#[test]
fn output_line_break_after_a_full_line_opens_one_line() {
    let mut output = Output::new(OutputConfig {
        immediately_print_output: false,
    });
    for c in "abcd\nef\n".chars() {
        output.push_char(c);
    }
    assert_eq!(output.split_into_lines(4), vec!["abcd", "ef", ""]);
    assert_eq!(output.split_into_lines(2), vec!["ab", "cd", "ef", ""]);
    assert_eq!(output.split_into_lines(1), vec!["a", "b", "c", "d", "e", "f", ""]);
    assert_eq!(output.chars(), vec!['a', 'b', 'c', 'd', '\n', 'e', 'f', '\n']);
}

#[test]
fn output_width_below_one_gives_each_character_a_line() {
    let mut output = Output::new(OutputConfig {
        immediately_print_output: false,
    });
    for c in "ab\nc".chars() {
        output.push_char(c);
    }
    assert_eq!(output.split_into_lines(0), vec!["", "a", "b", "", "c"]);
    assert_eq!(output.split_into_lines(-3), vec!["", "a", "b", "", "c"]);
}

#[test]
fn output_long_number_is_wrapped() {
    let mut output = Output::new(OutputConfig {
        immediately_print_output: false,
    });
    output.push_int(Value::new(-123).unwrap());
    output.push_int(Value::new(45).unwrap());
    assert_eq!(output.read_all(), "-123\n45");
    assert_eq!(output.split_into_lines(3), vec!["-12", "3", "45"]);
}

#[test]
fn output_number_after_a_digit_character_is_not_separated() {
    let mut output = Output::new(OutputConfig {
        immediately_print_output: false,
    });
    output.push_char('5');
    output.push_int(Value::from(7));
    output.push_char('x');
    output.push_int(Value::from(8));
    output.push_int(Value::from(9));
    assert_eq!(output.read_all(), "57x8\n9");
}

#[test]
fn output_rows_fit_the_width_and_hold_no_line_break() {
    let mut output = Output::new(OutputConfig {
        immediately_print_output: false,
    });
    for c in "one two\n\nthree four five\nsix".chars() {
        output.push_char(c);
    }
    output.push_int(Value::new(-999).unwrap());
    output.push_int(Value::new(12).unwrap());
    let text = output.read_all();
    for width in 1..12 {
        let rows = output.split_into_lines(width);
        assert!(!rows.is_empty());
        for row in rows.iter() {
            assert!(row.chars().count() <= width as usize);
            assert!(!row.contains('\n'));
        }
        let kept: String = rows.concat();
        let expected: String = text.chars().filter(|c| *c != '\n').collect();
        assert_eq!(kept, expected);
    }
}

#[test]
fn output_numbers_fill_a_row_each_where_they_fit() {
    let numbers = [0i16, -5, 42, 999, -999, 7];
    let mut output = Output::new(OutputConfig {
        immediately_print_output: false,
    });
    for number in numbers {
        output.push_int(Value::new(number).unwrap());
    }
    let expected: Vec<String> = numbers.iter().map(|n| n.to_string()).collect();
    for width in 4..10 {
        assert_eq!(output.split_into_lines(width), expected);
    }
}
