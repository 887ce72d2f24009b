use rusty_man_computer::assembler::assemble;
use rusty_man_computer::assembler::generate_label_table;
use rusty_man_computer::assembler::generate_machine_code;
use rusty_man_computer::assembler::parse_assembly;
use rusty_man_computer::assembler::parse_line;
use rusty_man_computer::assembler::parse_opcode;
use rusty_man_computer::assembler::AssemblerError;
use rusty_man_computer::assembler::EncodeError;
use rusty_man_computer::assembler::Line;
use rusty_man_computer::assembler::Opcode;
use rusty_man_computer::assembler::Operand;
use rusty_man_computer::assembler::ParseError;
use rusty_man_computer::assembler::ParseErrorType;
use rusty_man_computer::value::Value;
use rusty_man_computer::Computer;
use rusty_man_computer::ComputerConfig;

fn instruction(label: Option<&str>, opcode: Opcode, operand: Option<Operand>) -> Line {
    Line::Instruction {
        label: label.map(String::from),
        opcode,
        operand,
    }
}

fn number(value: i16) -> Option<Operand> {
    Some(Operand::Value(Value::new(value).unwrap()))
}

fn label(name: &str) -> Option<Operand> {
    Some(Operand::Label(String::from(name)))
}

fn run_program(program: &str, input: Vec<Value>) -> String {
    let machine_code = assemble(program).unwrap();
    let mut computer = Computer::new(ComputerConfig {
        input: Some(input),
        ..ComputerConfig::default()
    });
    for (address, word) in machine_code.iter().enumerate() {
        assert!(computer.write_ram(address, *word));
    }
    assert_eq!(computer.run(1_000_000), Ok(false));
    computer.output.read_all()
}

#[test]
fn assembler_add_program() {
    let program = "
        // Outputs sum of two inputs
        INP
        STA 99
        INP
        ADD 99
        OUT
        HLT
        ";
    assert_eq!(
        assemble(program).unwrap(),
        vec![901, 399, 901, 199, 902, 000]
    )
}

#[test]
fn assembles_add_program() {
    let program = "
        // Outputs sum of two inputs
        INP
        STA 99
        INP
        ADD 99
        OUT
        HLT
        ";
    assert_eq!(
        assemble(program).unwrap(),
        vec![901, 399, 901, 199, 902, 000]
    )
}

#[test]
fn test_add_program() {
    let number_1 = 3;
    let number_2 = -5;
    let expected_output = number_1 + number_2;
    let output = run_program(
        "INP\nSTA 99\nINP\nADD 99\nOUT\nHLT",
        vec![number_1.into(), number_2.into()],
    );
    assert_eq!(output, expected_output.to_string());
    assert_eq!(output, "-2");
}

#[test]
fn test_add_subtract_program() {
    let number_1 = 10;
    let number_2 = 11;
    let expected_sum = number_1 + number_2;
    let number_3 = 100;
    let expected_difference = number_3 - number_1;
    let program = "
        // Adds two inputs, then takes the first away from a third
        INP
        STA first
        INP
        ADD first
        OUT
        INP
        SUB first
        OUT
        HLT
first   DAT
        ";
    let output = run_program(
        program,
        vec![number_1.into(), number_2.into(), number_3.into()],
    );
    let expected_output = [expected_sum.to_string(), expected_difference.to_string()].join("\n");
    assert_eq!(output, expected_output);
}

#[test]
fn test_factorial_program() {
    let input = 6;
    // 6! = 720
    let expected_output = 720;
    let program = "
        // Writes the factorial of the number read
        INP
        STA n
        LDA one
        STA result
outer   LDA n
        SUB one
        BRZ done
        LDA zero
        STA sum
        LDA n
        STA count

inner   LDA sum
        ADD result
        STA sum
        LDA count
        SUB one
        STA count
        BRZ endin
        BRA inner
endin   LDA sum
        STA result
        LDA n
        SUB one
        STA n
        BRA outer
done    LDA result
        OUT
        HLT
n       DAT 0
result  DAT 1
sum     DAT 0
count   DAT 0
one     DAT 1
zero    DAT 0
        ";
    let output = run_program(program, vec![input.into()]);
    assert_eq!(output, expected_output.to_string());
}

#[test]
fn test_ascii_program() {
    let program = "
loop    LDA char
        OTC
        ADD one
        STA char
        SUB end
        BRZ done
        BRA loop
done    HLT
char    DAT 32
one     DAT 1
end     DAT 127
        ";
    let output = run_program(program, vec![]);
    assert_eq!(
        output,
        r##" !"#$%&'()*+,-./0123456789:;<=>?@ABCDEFGHIJKLMNOPQRSTUVWXYZ[\]^_`abcdefghijklmnopqrstuvwxyz{|}~"##
    );
}

#[test]
fn undefined_label_leaves_no_machine_code() {
    let program = "INP\nBRA nowhere\nHLT";
    assert_eq!(
        assemble(program),
        Err(AssemblerError::MachineCodeError(EncodeError::LabelNotFound(
            String::from("nowhere")
        )))
    );
}

#[test]
fn undefined_label_counts_where_the_operand_is_not_used() {
    assert_eq!(
        assemble("HLT ghost"),
        Err(AssemblerError::MachineCodeError(EncodeError::LabelNotFound(
            String::from("ghost")
        )))
    );
    assert_eq!(assemble("here HLT here").unwrap(), vec![0]);
    assert_eq!(assemble("INP 5\nOUT 77\nOTC 1").unwrap(), vec![901, 902, 922]);
}

#[test]
fn first_failure_is_the_one_reported() {
    assert_eq!(
        assemble("ADD 100\nBRA nowhere"),
        Err(AssemblerError::MachineCodeError(EncodeError::AddressOutOfRange))
    );
    assert_eq!(
        assemble("BRA nowhere\nFOO"),
        Err(AssemblerError::ParseError(ParseError {
            error: ParseErrorType::InvalidOpcode(String::from("FOO")),
            line: 2
        }))
    );
    assert_eq!(
        assemble("\nFOO BAR\nBAZ"),
        Err(AssemblerError::ParseError(ParseError {
            error: ParseErrorType::InvalidOpcode(String::from("BAR")),
            line: 2
        }))
    );
}

#[test]
fn parse_opcode_knows_the_twelve_mnemonics() {
    assert_eq!(parse_opcode("HLT"), Some(Opcode::HLT));
    assert_eq!(parse_opcode("ADD"), Some(Opcode::ADD));
    assert_eq!(parse_opcode("SUB"), Some(Opcode::SUB));
    assert_eq!(parse_opcode("STA"), Some(Opcode::STA));
    assert_eq!(parse_opcode("LDA"), Some(Opcode::LDA));
    assert_eq!(parse_opcode("BRA"), Some(Opcode::BRA));
    assert_eq!(parse_opcode("BRZ"), Some(Opcode::BRZ));
    assert_eq!(parse_opcode("BRP"), Some(Opcode::BRP));
    assert_eq!(parse_opcode("INP"), Some(Opcode::INP));
    assert_eq!(parse_opcode("OUT"), Some(Opcode::OUT));
    assert_eq!(parse_opcode("OTC"), Some(Opcode::OTC));
    assert_eq!(parse_opcode("DAT"), Some(Opcode::DAT));
    assert_eq!(parse_opcode("hlt"), None);
    assert_eq!(parse_opcode("HLTX"), None);
    assert_eq!(parse_opcode("HL"), None);
    assert_eq!(parse_opcode(""), None);
    assert_eq!(parse_opcode("STO"), None);
}

#[test]
fn parse_line_reads_labels_opcodes_and_operands() {
    assert_eq!(parse_line("", 1), Ok(Line::Empty));
    assert_eq!(parse_line("   \t ", 1), Ok(Line::Empty));
    assert_eq!(parse_line("  // ADD 5", 1), Ok(Line::Empty));
    assert_eq!(parse_line("//", 1), Ok(Line::Empty));
    assert_eq!(parse_line("//FOO", 1), Ok(Line::Empty));
    assert_eq!(parse_line("HLT", 1), Ok(instruction(None, Opcode::HLT, None)));
    assert_eq!(
        parse_line("\tADD 5\r", 1),
        Ok(instruction(None, Opcode::ADD, number(5)))
    );
    assert_eq!(
        parse_line("loop LDA count extra words", 1),
        Ok(instruction(Some("loop"), Opcode::LDA, label("count")))
    );
    assert_eq!(
        parse_line("x DAT -999", 1),
        Ok(instruction(Some("x"), Opcode::DAT, number(-999)))
    );
    assert_eq!(
        parse_line("ADD ADD", 1),
        Ok(instruction(None, Opcode::ADD, label("ADD")))
    );
    assert_eq!(
        parse_line("DAT +7", 1),
        Ok(instruction(None, Opcode::DAT, number(7)))
    );
    assert_eq!(
        parse_line("DAT 40000", 1),
        Ok(instruction(None, Opcode::DAT, label("40000")))
    );
    assert_eq!(
        parse_line("BRA 1a", 1),
        Ok(instruction(None, Opcode::BRA, label("1a")))
    );
}

#[test]
fn parse_line_names_the_word_that_is_no_opcode() {
    assert_eq!(
        parse_line("FOO", 3),
        Err(ParseError {
            error: ParseErrorType::InvalidOpcode(String::from("FOO")),
            line: 3
        })
    );
    assert_eq!(
        parse_line("loop lda 5", 4),
        Err(ParseError {
            error: ParseErrorType::InvalidOpcode(String::from("lda")),
            line: 4
        })
    );
    assert_eq!(
        parse_line("/ /", 5),
        Err(ParseError {
            error: ParseErrorType::InvalidOpcode(String::from("/")),
            line: 5
        })
    );
}

#[test]
fn parse_line_rejects_a_number_outside_the_domain() {
    assert_eq!(
        parse_line("ADD 1000", 7),
        Err(ParseError {
            error: ParseErrorType::OperandOutOfRange(1000),
            line: 7
        })
    );
    assert_eq!(
        parse_line("x DAT -1000", 8),
        Err(ParseError {
            error: ParseErrorType::OperandOutOfRange(-1000),
            line: 8
        })
    );
    assert_eq!(
        parse_line("DAT 32767", 9),
        Err(ParseError {
            error: ParseErrorType::OperandOutOfRange(32767),
            line: 9
        })
    );
}

#[test]
fn parse_assembly_reads_every_line() {
    let parsed = parse_assembly("INP\n\n// note\nFOO\nlast OUT\n");
    assert_eq!(
        parsed,
        vec![
            Ok(instruction(None, Opcode::INP, None)),
            Ok(Line::Empty),
            Ok(Line::Empty),
            Err(ParseError {
                error: ParseErrorType::InvalidOpcode(String::from("FOO")),
                line: 4
            }),
            Ok(instruction(Some("last"), Opcode::OUT, None)),
        ]
    );
    assert!(parse_assembly("").is_empty());
}

#[test]
fn labels_stand_for_places_among_the_instructions() {
    let lines = vec![
        Line::Empty,
        instruction(Some("first"), Opcode::INP, None),
        Line::Empty,
        instruction(None, Opcode::OUT, None),
        instruction(Some("third"), Opcode::HLT, None),
    ];
    let labels = generate_label_table(&lines);
    assert_eq!(labels.get(&String::from("first")), Some(0));
    assert_eq!(labels.get(&String::from("third")), Some(2));
    assert_eq!(labels.get(&String::from("second")), None);
    let program = "
        BRA end

        // a comment between the lines
        INP
end     HLT
        ";
    assert_eq!(assemble(program).unwrap(), vec![602, 901, 0]);
}

#[test]
fn later_label_takes_the_place_of_an_earlier_one() {
    let program = "x INP\nx OUT\nBRA x\nHLT";
    assert_eq!(assemble(program).unwrap(), vec![901, 902, 601, 0]);
}

#[test]
fn generate_machine_code_encodes_each_opcode() {
    let lines = vec![
        instruction(None, Opcode::HLT, number(5)),
        instruction(None, Opcode::ADD, number(1)),
        instruction(None, Opcode::SUB, number(2)),
        instruction(None, Opcode::STA, number(3)),
        instruction(None, Opcode::LDA, number(99)),
        instruction(None, Opcode::BRA, None),
        Line::Empty,
        instruction(None, Opcode::BRZ, number(7)),
        instruction(Some("here"), Opcode::BRP, label("here")),
        instruction(None, Opcode::INP, None),
        instruction(None, Opcode::OUT, None),
        instruction(None, Opcode::OTC, None),
        instruction(None, Opcode::DAT, number(-999)),
        instruction(None, Opcode::DAT, label("here")),
        instruction(None, Opcode::DAT, None),
    ];
    assert_eq!(
        generate_machine_code(lines).unwrap(),
        vec![0, 101, 202, 303, 599, 600, 707, 807, 901, 902, 922, -999, 7, 0]
    );
}

#[test]
fn address_has_to_be_an_address() {
    assert_eq!(
        generate_machine_code(vec![instruction(None, Opcode::ADD, number(100))]),
        Err(EncodeError::AddressOutOfRange)
    );
    assert_eq!(
        generate_machine_code(vec![instruction(None, Opcode::BRP, number(-1))]),
        Err(EncodeError::AddressOutOfRange)
    );
    let mut lines = Vec::new();
    for _ in 0..100 {
        lines.push(instruction(None, Opcode::HLT, None));
    }
    lines.push(instruction(Some("far"), Opcode::BRA, label("far")));
    assert_eq!(
        generate_machine_code(lines),
        Err(EncodeError::AddressOutOfRange)
    );
}

#[test]
fn data_has_to_be_in_the_domain() {
    let mut lines = Vec::new();
    for _ in 0..999 {
        lines.push(instruction(None, Opcode::HLT, None));
    }
    lines.push(instruction(Some("edge"), Opcode::DAT, label("edge")));
    let code = generate_machine_code(lines.clone()).unwrap();
    assert_eq!(code[999], 999);
    lines.push(instruction(Some("over"), Opcode::DAT, label("over")));
    assert_eq!(generate_machine_code(lines), Err(EncodeError::DataOutOfRange));
}

#[test]
fn machine_words_decode_to_their_instruction() {
    let digits = [
        ("ADD", 1),
        ("SUB", 2),
        ("STA", 3),
        ("LDA", 5),
        ("BRA", 6),
        ("BRZ", 7),
        ("BRP", 8),
    ];
    for (mnemonic, digit) in digits {
        for address in [0i16, 7, 42, 99] {
            let code = assemble(&format!("{} {}", mnemonic, address)).unwrap();
            assert_eq!(code.len(), 1);
            assert_eq!(code[0].first_digit(), digit);
            assert_eq!(code[0].last_two_digits(), address);
        }
    }
    let code = assemble("HLT\nINP\nOUT\nOTC").unwrap();
    assert_eq!(code[0].first_digit(), 0);
    assert_eq!((code[1].first_digit(), code[1].last_two_digits()), (9, 1));
    assert_eq!((code[2].first_digit(), code[2].last_two_digits()), (9, 2));
    assert_eq!((code[3].first_digit(), code[3].last_two_digits()), (9, 22));
}
