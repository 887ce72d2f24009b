use vstd::prelude::*;
use std::path::PathBuf;
use crate::machine::image_of;
use crate::text::decimal_of;
use crate::text::decimal_string;
use crate::text::chars_of;
use crate::text::i16_of;
use crate::text::lines_of;
use crate::text::parse_i16;
use crate::text::push_decimal;
use crate::text::split_lines;
use crate::text::split_whitespace;
use crate::text::words_of;
use crate::value::first_digit_of;
use crate::value::in_domain;
use crate::value::integers_of;
use crate::value::last_two_digits_of;
use crate::value::Value;

verus! {

/// What the command line of the assembler says.
pub struct Args {
    /// Where the program is kept.
    pub program: PathBuf,
    /// Where the memory image of the assembled program is to be written.
    pub output: PathBuf,
}

/// The instructions of the assembly language, and `DAT` for a word of data.
#[derive(Copy, Clone, Debug, PartialEq, Eq, Structural)]
pub enum Opcode {
    HLT,
    ADD,
    SUB,
    STA,
    LDA,
    BRA,
    BRZ,
    BRP,
    INP,
    OUT,
    OTC,
    DAT,
}

/// What stands behind an opcode: a number, or the label of a line.
#[derive(Clone, Debug, PartialEq)]
pub enum Operand {
    Value(Value),
    Label(String),
}

/// One line of a program.
#[derive(Clone, Debug, PartialEq)]
pub enum Line {
    /// A blank line or a comment.
    Empty,
    Instruction { label: Option<String>, opcode: Opcode, operand: Option<Operand> },
}

/// Why a line is no instruction.
#[derive(Clone, Debug, PartialEq)]
pub enum ParseErrorType {
    /// The word that stands where an opcode is due is none.
    InvalidOpcode(String),
    /// The number behind the opcode is outside the value domain.
    OperandOutOfRange(i16),
}

/// Why a line is no instruction, and which line it is, counted from one.
#[derive(Clone, Debug, PartialEq)]
pub struct ParseError {
    pub error: ParseErrorType,
    pub line: usize,
}

/// An operand as plain mathematical values.
pub enum OperandView {
    Value(int),
    Label(Seq<char>),
}

/// A line as plain mathematical values.
pub enum LineView {
    Empty,
    Instruction { label: Option<Seq<char>>, opcode: Opcode, operand: Option<OperandView> },
}

/// The reason why a line is no instruction, as plain mathematical values.
pub enum ParseErrorTypeView {
    InvalidOpcode(Seq<char>),
    OperandOutOfRange(i16),
}

/// The reason why a line is no instruction, and the line's number, as plain
/// mathematical values.
pub struct ParseErrorView {
    pub error: ParseErrorTypeView,
    pub line: nat,
}

/// The mathematical form of an operand that may be missing.
pub open spec fn operand_view(operand: Option<Operand>) -> Option<OperandView> {
    match operand {
        Some(operand) => Some(operand@),
        None => None,
    }
}

/// The mathematical form of a label that may be missing.
pub open spec fn label_view(label: Option<String>) -> Option<Seq<char>> {
    match label {
        Some(name) => Some(name@),
        None => None,
    }
}

impl View for Operand {
    type V = OperandView;

    open spec fn view(&self) -> OperandView {
        match *self {
            Operand::Value(value) => OperandView::Value(value@),
            Operand::Label(label) => OperandView::Label(label@),
        }
    }
}

impl View for Line {
    type V = LineView;

    open spec fn view(&self) -> LineView {
        match *self {
            Line::Empty => LineView::Empty,
            Line::Instruction { label, opcode, operand } => LineView::Instruction {
                label: label_view(label),
                opcode,
                operand: operand_view(operand),
            },
        }
    }
}

impl View for ParseErrorType {
    type V = ParseErrorTypeView;

    open spec fn view(&self) -> ParseErrorTypeView {
        match *self {
            ParseErrorType::InvalidOpcode(word) => ParseErrorTypeView::InvalidOpcode(word@),
            ParseErrorType::OperandOutOfRange(number) => ParseErrorTypeView::OperandOutOfRange(
                number,
            ),
        }
    }
}

impl View for ParseError {
    type V = ParseErrorView;

    open spec fn view(&self) -> ParseErrorView {
        ParseErrorView { error: self.error@, line: self.line as nat }
    }
}

/// The word that stands for `opcode` in a program.
pub open spec fn mnemonic(opcode: Opcode) -> Seq<char> {
    match opcode {
        Opcode::HLT => seq!['H', 'L', 'T'],
        Opcode::ADD => seq!['A', 'D', 'D'],
        Opcode::SUB => seq!['S', 'U', 'B'],
        Opcode::STA => seq!['S', 'T', 'A'],
        Opcode::LDA => seq!['L', 'D', 'A'],
        Opcode::BRA => seq!['B', 'R', 'A'],
        Opcode::BRZ => seq!['B', 'R', 'Z'],
        Opcode::BRP => seq!['B', 'R', 'P'],
        Opcode::INP => seq!['I', 'N', 'P'],
        Opcode::OUT => seq!['O', 'U', 'T'],
        Opcode::OTC => seq!['O', 'T', 'C'],
        Opcode::DAT => seq!['D', 'A', 'T'],
    }
}

/// The opcode that `word` stands for, where it stands for one.
pub open spec fn opcode_of(word: Seq<char>) -> Option<Opcode> {
    if word =~= mnemonic(Opcode::HLT) {
        Some(Opcode::HLT)
    } else if word =~= mnemonic(Opcode::ADD) {
        Some(Opcode::ADD)
    } else if word =~= mnemonic(Opcode::SUB) {
        Some(Opcode::SUB)
    } else if word =~= mnemonic(Opcode::STA) {
        Some(Opcode::STA)
    } else if word =~= mnemonic(Opcode::LDA) {
        Some(Opcode::LDA)
    } else if word =~= mnemonic(Opcode::BRA) {
        Some(Opcode::BRA)
    } else if word =~= mnemonic(Opcode::BRZ) {
        Some(Opcode::BRZ)
    } else if word =~= mnemonic(Opcode::BRP) {
        Some(Opcode::BRP)
    } else if word =~= mnemonic(Opcode::INP) {
        Some(Opcode::INP)
    } else if word =~= mnemonic(Opcode::OUT) {
        Some(Opcode::OUT)
    } else if word =~= mnemonic(Opcode::OTC) {
        Some(Opcode::OTC)
    } else if word =~= mnemonic(Opcode::DAT) {
        Some(Opcode::DAT)
    } else {
        None
    }
}

/// A word stands for an opcode where it is the mnemonic of that opcode, and
/// nowhere else.
pub proof fn lemma_opcode_of_mnemonic(word: Seq<char>, opcode: Opcode)
    ensures
        opcode_of(word) == Some(opcode) <==> word == mnemonic(opcode),
{
}

/// Whether a line that begins with `word` is a comment: whether the word
/// begins with two slashes.
pub open spec fn is_comment(word: Seq<char>) -> bool {
    word.len() >= 2 && word[0] == '/' && word[1] == '/'
}

/// The operand that `word` stands for: a number where the word is a 16-bit
/// integer in decimal form, which has to be in the value domain; a label
/// otherwise.
pub open spec fn operand_of(word: Seq<char>) -> Result<OperandView, ParseErrorTypeView> {
    match i16_of(word) {
        Some(number) => if in_domain(number as int) {
            Ok(OperandView::Value(number as int))
        } else {
            Err(ParseErrorTypeView::OperandOutOfRange(number))
        },
        None => Ok(OperandView::Label(word)),
    }
}

/// The instruction with the given label and opcode whose operand, if it has
/// one, is the word at `at`.
pub open spec fn instruction_with(
    label: Option<Seq<char>>,
    opcode: Opcode,
    words: Seq<Seq<char>>,
    at: int,
) -> Result<LineView, ParseErrorTypeView> {
    if at < words.len() {
        match operand_of(words[at]) {
            Ok(operand) => Ok(LineView::Instruction { label, opcode, operand: Some(operand) }),
            Err(error) => Err(error),
        }
    } else {
        Ok(LineView::Instruction { label, opcode, operand: None })
    }
}

/// The instruction that the words of a line make. The first word is the
/// opcode, or else a label with the opcode behind it; the word behind the
/// opcode is the operand; further words count for nothing.
pub open spec fn instruction_of(words: Seq<Seq<char>>) -> Result<LineView, ParseErrorTypeView> {
    match opcode_of(words[0]) {
        Some(opcode) => instruction_with(None, opcode, words, 1),
        None => if words.len() < 2 {
            Err(ParseErrorTypeView::InvalidOpcode(words[0]))
        } else {
            match opcode_of(words[1]) {
                Some(opcode) => instruction_with(Some(words[0]), opcode, words, 2),
                None => Err(ParseErrorTypeView::InvalidOpcode(words[1])),
            }
        },
    }
}

/// What the line `text` of a program is, `line_number` being its place in the
/// program, counted from one: empty where it holds no word or begins with two
/// slashes, an instruction otherwise.
pub open spec fn line_of(text: Seq<char>, line_number: nat) -> Result<LineView, ParseErrorView> {
    let words = words_of(text);
    if words.len() == 0 || is_comment(words[0]) {
        Ok(LineView::Empty)
    } else {
        match instruction_of(words) {
            Ok(line) => Ok(line),
            Err(error) => Err(ParseErrorView { error, line: line_number }),
        }
    }
}

/// What each line of the program `text` is.
pub open spec fn parsed(text: Seq<char>) -> Seq<Result<LineView, ParseErrorView>> {
    let lines = lines_of(text);
    Seq::new(lines.len(), |i: int| line_of(lines[i], (i + 1) as nat))
}

/// The mathematical form of a line read, or of the reason why it was not.
pub open spec fn line_result_view(result: Result<Line, ParseError>) -> Result<
    LineView,
    ParseErrorView,
> {
    match result {
        Ok(line) => Ok(line@),
        Err(error) => Err(error@),
    }
}

/// The mathematical form of each line read, or of the reason why it was not.
pub open spec fn line_result_views(results: Seq<Result<Line, ParseError>>) -> Seq<
    Result<LineView, ParseErrorView>,
> {
    Seq::new(results.len(), |i: int| line_result_view(results[i]))
}

pub fn parse_opcode(string: &str) -> (r: Option<Opcode>)
    ensures
        r == opcode_of(string@),
{
    let chars = chars_of(string);
    if chars.len() != 3 {
        return None;
    }
    let a: char = chars[0];
    let b: char = chars[1];
    let c: char = chars[2];
    if a == 'H' && b == 'L' && c == 'T' {
        Some(Opcode::HLT)
    } else if a == 'A' && b == 'D' && c == 'D' {
        Some(Opcode::ADD)
    } else if a == 'S' && b == 'U' && c == 'B' {
        Some(Opcode::SUB)
    } else if a == 'S' && b == 'T' && c == 'A' {
        Some(Opcode::STA)
    } else if a == 'L' && b == 'D' && c == 'A' {
        Some(Opcode::LDA)
    } else if a == 'B' && b == 'R' && c == 'A' {
        Some(Opcode::BRA)
    } else if a == 'B' && b == 'R' && c == 'Z' {
        Some(Opcode::BRZ)
    } else if a == 'B' && b == 'R' && c == 'P' {
        Some(Opcode::BRP)
    } else if a == 'I' && b == 'N' && c == 'P' {
        Some(Opcode::INP)
    } else if a == 'O' && b == 'U' && c == 'T' {
        Some(Opcode::OUT)
    } else if a == 'O' && b == 'T' && c == 'C' {
        Some(Opcode::OTC)
    } else if a == 'D' && b == 'A' && c == 'T' {
        Some(Opcode::DAT)
    } else {
        None
    }
}

/// Whether a line that begins with `word` is a comment.
fn starts_comment(word: &str) -> (r: bool)
    ensures
        r == is_comment(word@),
{
    let chars = chars_of(word);
    chars.len() >= 2 && chars[0] == '/' && chars[1] == '/'
}

/// Reads the word behind an opcode.
fn parse_operand(word: &String) -> (r: Result<Operand, ParseErrorType>)
    ensures
        match operand_of(word@) {
            Ok(operand) => r is Ok && r->Ok_0@ == operand,
            Err(error) => r is Err && r->Err_0@ == error,
        },
{
    match parse_i16(word.as_str()) {
        Some(number) => match Value::new(number) {
            Ok(value) => Ok(Operand::Value(value)),
            Err(_) => Err(ParseErrorType::OperandOutOfRange(number)),
        },
        None => Ok(Operand::Label(word.clone())),
    }
}

/// Reads one line of a program, `line_number` being its place in the program.
pub fn parse_line(text: &str, line_number: usize) -> (r: Result<Line, ParseError>)
    ensures
        line_result_view(r) == line_of(text@, line_number as nat),
{
    let parts = split_whitespace(text);
    if parts.len() == 0 {
        return Ok(Line::Empty);
    }
    if starts_comment(parts[0].as_str()) {
        return Ok(Line::Empty);
    }
    // Where the first word is no opcode, it is a label
    let first_part_as_opcode = parse_opcode(parts[0].as_str());
    let label: Option<String> = match first_part_as_opcode {
        Some(_) => None,
        None => Some(parts[0].clone()),
    };
    let opcode: Opcode = match first_part_as_opcode {
        Some(opcode) => opcode,
        None => {
            if parts.len() < 2 {
                return Err(
                    ParseError {
                        error: ParseErrorType::InvalidOpcode(parts[0].clone()),
                        line: line_number,
                    },
                );
            }
            match parse_opcode(parts[1].as_str()) {
                Some(opcode) => opcode,
                None => {
                    return Err(
                        ParseError {
                            error: ParseErrorType::InvalidOpcode(parts[1].clone()),
                            line: line_number,
                        },
                    );
                },
            }
        },
    };
    let operand_index: usize = if label.is_some() {
        2
    } else {
        1
    };
    let operand: Option<Operand> = if operand_index < parts.len() {
        match parse_operand(&parts[operand_index]) {
            Ok(operand) => Some(operand),
            Err(error) => {
                return Err(ParseError { error, line: line_number });
            },
        }
    } else {
        None
    };
    Ok(Line::Instruction { label, opcode, operand })
}

/// Reads a program line by line.
pub fn parse_assembly(program: &str) -> (r: Vec<Result<Line, ParseError>>)
    ensures
        line_result_views(r@) == parsed(program@),
{
    let lines = split_lines(program);
    let ghost texts = lines_of(program@);
    let mut results: Vec<Result<Line, ParseError>> = Vec::new();
    let mut line_index: usize = 0;
    while line_index < lines.len()
        invariant
            line_index <= lines.len(),
            lines.len() == texts.len(),
            texts == lines_of(program@),
            forall|i: int| 0 <= i < lines.len() ==> #[trigger] lines[i]@ == texts[i],
            results@.len() == line_index,
            forall|i: int|
                0 <= i < line_index ==> line_result_view(#[trigger] results@[i]) == line_of(
                    texts[i],
                    (i + 1) as nat,
                ),
        decreases lines.len() - line_index,
    {
        let line_number: usize = line_index + 1;
        let result = parse_line(lines[line_index].as_str(), line_number);
        results.push(result);
        line_index += 1;
    }
    results
}

/// Why an instruction has no machine word.
#[derive(Clone, Debug, PartialEq)]
pub enum EncodeError {
    /// The operand is a label that no line carries.
    LabelNotFound(String),
    /// The operand of an instruction that takes an address is not one of 0 to 99.
    AddressOutOfRange,
    /// The operand of `DAT` is outside the value domain.
    DataOutOfRange,
}

/// Why a program has no machine code.
#[derive(Clone, Debug, PartialEq)]
pub enum AssemblerError {
    ParseError(ParseError),
    MachineCodeError(EncodeError),
}

/// The reason why an instruction has no machine word, as plain mathematical
/// values.
pub enum EncodeErrorView {
    LabelNotFound(Seq<char>),
    AddressOutOfRange,
    DataOutOfRange,
}

/// The reason why a program has no machine code, as plain mathematical
/// values.
pub enum AssemblerErrorView {
    ParseError(ParseErrorView),
    MachineCodeError(EncodeErrorView),
}

impl View for EncodeError {
    type V = EncodeErrorView;

    open spec fn view(&self) -> EncodeErrorView {
        match *self {
            EncodeError::LabelNotFound(label) => EncodeErrorView::LabelNotFound(label@),
            EncodeError::AddressOutOfRange => EncodeErrorView::AddressOutOfRange,
            EncodeError::DataOutOfRange => EncodeErrorView::DataOutOfRange,
        }
    }
}

impl View for AssemblerError {
    type V = AssemblerErrorView;

    open spec fn view(&self) -> AssemblerErrorView {
        match *self {
            AssemblerError::ParseError(error) => AssemblerErrorView::ParseError(error@),
            AssemblerError::MachineCodeError(error) => AssemblerErrorView::MachineCodeError(error@),
        }
    }
}

/// The mathematical form of each of `lines`.
pub open spec fn line_views(lines: Seq<Line>) -> Seq<LineView> {
    Seq::new(lines.len(), |i: int| lines[i]@)
}

/// How many of `lines` are instructions.
pub open spec fn instruction_count(lines: Seq<LineView>) -> nat
    decreases lines.len(),
{
    if lines.len() == 0 {
        0
    } else if lines.last() is Empty {
        instruction_count(lines.drop_last())
    } else {
        instruction_count(lines.drop_last()) + 1
    }
}

/// The address that each label of `lines` stands for: the place that the
/// line which carries it has among the instructions, counted from zero. Of
/// two lines with one label, the later one counts.
pub open spec fn label_table(lines: Seq<LineView>) -> Map<Seq<char>, nat>
    decreases lines.len(),
{
    if lines.len() == 0 {
        Map::empty()
    } else {
        let before = label_table(lines.drop_last());
        match lines.last() {
            LineView::Instruction { label: Some(name), .. } => before.insert(
                name,
                instruction_count(lines.drop_last()),
            ),
            _ => before,
        }
    }
}

/// The number that an operand stands for: itself, the address of its label,
/// or zero where there is no operand.
pub open spec fn resolved(operand: Option<OperandView>, labels: Map<Seq<char>, nat>) -> Result<
    int,
    EncodeErrorView,
> {
    match operand {
        Some(OperandView::Value(number)) => Ok(number),
        Some(OperandView::Label(name)) => if labels.contains_key(name) {
            Ok(labels[name] as int)
        } else {
            Err(EncodeErrorView::LabelNotFound(name))
        },
        None => Ok(0),
    }
}

/// The leading digit of the machine words of an instruction that takes an
/// address.
pub open spec fn opcode_digit(opcode: Opcode) -> Option<int> {
    match opcode {
        Opcode::ADD => Some(1),
        Opcode::SUB => Some(2),
        Opcode::STA => Some(3),
        Opcode::LDA => Some(5),
        Opcode::BRA => Some(6),
        Opcode::BRZ => Some(7),
        Opcode::BRP => Some(8),
        _ => None,
    }
}

/// The machine word of an instruction. Its operand is resolved first, also
/// where the word does not depend on it.
pub open spec fn encoded(
    opcode: Opcode,
    operand: Option<OperandView>,
    labels: Map<Seq<char>, nat>,
) -> Result<int, EncodeErrorView> {
    match resolved(operand, labels) {
        Err(error) => Err(error),
        Ok(number) => match opcode {
            Opcode::HLT => Ok(0),
            Opcode::INP => Ok(901),
            Opcode::OUT => Ok(902),
            Opcode::OTC => Ok(922),
            Opcode::DAT => if in_domain(number) {
                Ok(number)
            } else {
                Err(EncodeErrorView::DataOutOfRange)
            },
            _ => if 0 <= number <= 99 {
                Ok(opcode_digit(opcode)->Some_0 * 100 + number)
            } else {
                Err(EncodeErrorView::AddressOutOfRange)
            },
        },
    }
}

/// The computer finds in the machine word of every instruction the opcode
/// digit of that instruction, and behind it the address that the operand
/// stood for, or the number that tells input and the two kinds of output
/// apart.
pub proof fn lemma_encoded_decodes(
    opcode: Opcode,
    operand: Option<OperandView>,
    labels: Map<Seq<char>, nat>,
)
    requires
        encoded(opcode, operand, labels) is Ok,
        opcode != Opcode::DAT,
    ensures
        in_domain(encoded(opcode, operand, labels)->Ok_0),
        opcode_digit(opcode) matches Some(digit) ==> first_digit_of(
            encoded(opcode, operand, labels)->Ok_0,
        ) == digit && last_two_digits_of(encoded(opcode, operand, labels)->Ok_0) == resolved(
            operand,
            labels,
        )->Ok_0,
        opcode == Opcode::HLT ==> first_digit_of(encoded(opcode, operand, labels)->Ok_0) == 0,
        opcode == Opcode::INP ==> first_digit_of(encoded(opcode, operand, labels)->Ok_0) == 9
            && last_two_digits_of(encoded(opcode, operand, labels)->Ok_0) == 1,
        opcode == Opcode::OUT ==> first_digit_of(encoded(opcode, operand, labels)->Ok_0) == 9
            && last_two_digits_of(encoded(opcode, operand, labels)->Ok_0) == 2,
        opcode == Opcode::OTC ==> first_digit_of(encoded(opcode, operand, labels)->Ok_0) == 9
            && last_two_digits_of(encoded(opcode, operand, labels)->Ok_0) == 22,
{
}

/// The machine words of the instructions among `lines`, in order, with labels
/// standing for what `labels` says; or why the first instruction that has no
/// machine word has none.
pub open spec fn machine_code_with(lines: Seq<LineView>, labels: Map<Seq<char>, nat>) -> Result<
    Seq<int>,
    EncodeErrorView,
>
    decreases lines.len(),
{
    if lines.len() == 0 {
        Ok(Seq::empty())
    } else {
        match machine_code_with(lines.drop_last(), labels) {
            Err(error) => Err(error),
            Ok(code) => match lines.last() {
                LineView::Empty => Ok(code),
                LineView::Instruction { opcode, operand, .. } => match encoded(
                    opcode,
                    operand,
                    labels,
                ) {
                    Ok(word) => Ok(code.push(word)),
                    Err(error) => Err(error),
                },
            },
        }
    }
}

/// The machine code of `lines`.
pub open spec fn machine_code(lines: Seq<LineView>) -> Result<Seq<int>, EncodeErrorView> {
    machine_code_with(lines, label_table(lines))
}

/// The instructions among the lines read, in order; or why the first line
/// that could not be read could not.
pub open spec fn instructions_of(results: Seq<Result<LineView, ParseErrorView>>) -> Result<
    Seq<LineView>,
    ParseErrorView,
>
    decreases results.len(),
{
    if results.len() == 0 {
        Ok(Seq::empty())
    } else {
        match instructions_of(results.drop_last()) {
            Err(error) => Err(error),
            Ok(lines) => match results.last() {
                Err(error) => Err(error),
                Ok(LineView::Empty) => Ok(lines),
                Ok(line) => Ok(lines.push(line)),
            },
        }
    }
}

/// The machine code of the program `text`: one word for each instruction, in
/// the order of the lines. A line that cannot be read, or else an instruction
/// that has no machine word, leaves the program without machine code.
pub open spec fn assembled(text: Seq<char>) -> Result<Seq<int>, AssemblerErrorView> {
    match instructions_of(parsed(text)) {
        Err(error) => Err(AssemblerErrorView::ParseError(error)),
        Ok(lines) => match machine_code(lines) {
            Ok(code) => Ok(code),
            Err(error) => Err(AssemblerErrorView::MachineCodeError(error)),
        },
    }
}

/// Whether `line` is an instruction that carries the label `name`.
pub open spec fn carries_label(line: LineView, name: Seq<char>) -> bool {
    line matches LineView::Instruction { label: Some(carried), .. } && carried == name
}

/// Whether `line` is an instruction whose operand is the label `name`.
pub open spec fn names_label(line: LineView, name: Seq<char>) -> bool {
    line matches LineView::Instruction { operand: Some(OperandView::Label(named)), .. } && named
        == name
}

/// The labels that stand for an address are those that some line carries, and
/// the address of each is that of an instruction.
pub proof fn lemma_label_table_keys(lines: Seq<LineView>, name: Seq<char>)
    ensures
        label_table(lines).contains_key(name) <==> exists|i: int|
            0 <= i < lines.len() && carries_label(#[trigger] lines[i], name),
        label_table(lines).contains_key(name) ==> label_table(lines)[name] < instruction_count(
            lines,
        ),
    decreases lines.len(),
{
    if lines.len() > 0 {
        let before = lines.drop_last();
        lemma_label_table_keys(before, name);
        if exists|i: int| 0 <= i < lines.len() && carries_label(#[trigger] lines[i], name) {
            let i = choose|i: int| 0 <= i < lines.len() && carries_label(#[trigger] lines[i], name);
            if i < before.len() {
                assert(carries_label(before[i], name));
            }
        }
    }
}

/// Machine code holds one word for each instruction, and each word is in the
/// value domain.
pub proof fn lemma_machine_code_words(lines: Seq<LineView>, labels: Map<Seq<char>, nat>)
    requires
        machine_code_with(lines, labels) is Ok,
        forall|i: int|
            0 <= i < lines.len() ==> (#[trigger] lines[i] matches LineView::Instruction {
                operand: Some(OperandView::Value(number)),
                ..
            } ==> in_domain(number)),
    ensures
        machine_code_with(lines, labels)->Ok_0.len() == instruction_count(lines),
        forall|i: int|
            0 <= i < machine_code_with(lines, labels)->Ok_0.len() ==> in_domain(
                #[trigger] machine_code_with(lines, labels)->Ok_0[i],
            ),
    decreases lines.len(),
{
    if lines.len() > 0 {
        let before = lines.drop_last();
        lemma_machine_code_words(before, labels);
    }
}

/// A program with an instruction whose operand is a label that no line
/// carries has no machine code; and where every instruction before that one
/// has a machine word, the reason given is that the label was not found.
pub proof fn lemma_undefined_label_fails(lines: Seq<LineView>, k: int, name: Seq<char>)
    requires
        0 <= k < lines.len(),
        names_label(lines[k], name),
        forall|i: int| 0 <= i < lines.len() ==> !carries_label(#[trigger] lines[i], name),
    ensures
        machine_code(lines) is Err,
        machine_code_with(lines.take(k), label_table(lines)) is Ok ==> machine_code(lines) == Err::<
            Seq<int>,
            EncodeErrorView,
        >(EncodeErrorView::LabelNotFound(name)),
{
    lemma_label_table_keys(lines, name);
    assert(lines.take(k + 1).drop_last() =~= lines.take(k));
    lemma_machine_code_error_stays(lines, label_table(lines), k + 1);
}

/// A program of which every line can be read, and in which an instruction has
/// for operand a label that no line carries, has no machine code; and where
/// every instruction before that one has a machine word, the reason given is
/// that the label was not found.
pub proof fn lemma_assembled_undefined_label(
    text: Seq<char>,
    lines: Seq<LineView>,
    k: int,
    name: Seq<char>,
)
    requires
        instructions_of(parsed(text)) == Ok::<Seq<LineView>, ParseErrorView>(lines),
        0 <= k < lines.len(),
        names_label(lines[k], name),
        forall|i: int| 0 <= i < lines.len() ==> !carries_label(#[trigger] lines[i], name),
    ensures
        assembled(text) is Err,
        machine_code_with(lines.take(k), label_table(lines)) is Ok ==> assembled(text) == Err::<
            Seq<int>,
            AssemblerErrorView,
        >(AssemblerErrorView::MachineCodeError(EncodeErrorView::LabelNotFound(name))),
{
    lemma_undefined_label_fails(lines, k, name);
}

/// The addresses that the labels of a program stand for.
pub struct LabelTable {
    entries: Vec<(String, usize)>,
}

/// The map that holds each address of `entries` under its name, a later entry
/// taking the place of an earlier one of the same name.
pub open spec fn table_of(entries: Seq<(Seq<char>, usize)>) -> Map<Seq<char>, nat>
    decreases entries.len(),
{
    if entries.len() == 0 {
        Map::empty()
    } else {
        table_of(entries.drop_last()).insert(entries.last().0, entries.last().1 as nat)
    }
}

impl View for LabelTable {
    type V = Map<Seq<char>, nat>;

    closed spec fn view(&self) -> Map<Seq<char>, nat> {
        table_of(self.entries.deep_view())
    }
}

impl LabelTable {
    /// A table without labels.
    pub fn new() -> (r: LabelTable)
        ensures
            r@ == Map::<Seq<char>, nat>::empty(),
    {
        LabelTable { entries: Vec::new() }
    }

    /// Lets `name` stand for `position`, whatever it stood for before.
    pub fn insert(&mut self, name: String, position: usize)
        ensures
            final(self)@ == old(self)@.insert(name@, position as nat),
    {
        let ghost entries = self.entries.deep_view();
        self.entries.push((name, position));
        assert(self.entries.deep_view().drop_last() =~= entries);
    }

    /// The address that `name` stands for, where it stands for one.
    pub fn get(&self, name: &String) -> (r: Option<usize>)
        ensures
            r is Some <==> self@.contains_key(name@),
            r matches Some(position) ==> self@[name@] == position,
    {
        let mut i: usize = self.entries.len();
        assert(self.entries.deep_view().take(i as int) =~= self.entries.deep_view());
        while i > 0
            invariant
                i <= self.entries.len(),
                self@.contains_key(name@) <==> table_of(
                    self.entries.deep_view().take(i as int),
                ).contains_key(name@),
                self@.contains_key(name@) ==> self@[name@] == table_of(
                    self.entries.deep_view().take(i as int),
                )[name@],
            decreases i,
        {
            let ghost entries = self.entries.deep_view().take(i as int);
            assert(entries.drop_last() =~= self.entries.deep_view().take(i - 1));
            i -= 1;
            if self.entries[i].0 == *name {
                return Some(self.entries[i].1);
            }
        }
        None
    }
}

/// The table of the labels that `lines` carry.
pub fn generate_label_table(lines: &Vec<Line>) -> (r: LabelTable)
    ensures
        r@ == label_table(line_views(lines@)),
{
    let mut labels = LabelTable::new();
    let mut position: usize = 0;
    let mut index: usize = 0;
    let ghost views = line_views(lines@);
    while index < lines.len()
        invariant
            index <= lines.len(),
            views == line_views(lines@),
            position <= index,
            position == instruction_count(views.take(index as int)),
            labels@ == label_table(views.take(index as int)),
        decreases lines.len() - index,
    {
        assert(views.take(index + 1).drop_last() =~= views.take(index as int));
        match &lines[index] {
            Line::Instruction { label, .. } => {
                if let Some(name) = label {
                    labels.insert(name.clone(), position);
                }
                position += 1;
            },
            Line::Empty => {},
        }
        index += 1;
    }
    assert(views.take(lines.len() as int) =~= views);
    labels
}

/// The machine word of one instruction.
fn encode_instruction(opcode: Opcode, operand: &Option<Operand>, labels: &LabelTable) -> (r:
    Result<Value, EncodeError>)
    ensures
        match encoded(opcode, operand_view(*operand), labels@) {
            Ok(word) => r is Ok && r->Ok_0@ == word,
            Err(error) => r is Err && r->Err_0@ == error,
        },
{
    // A label that stands beyond every address and every number counts as 1000
    let operand_num: i16 = match operand {
        Some(Operand::Value(value)) => value.get(),
        Some(Operand::Label(label)) => match labels.get(label) {
            Some(position) => if position < 1000 {
                position as i16
            } else {
                1000
            },
            None => {
                return Err(EncodeError::LabelNotFound(label.clone()));
            },
        },
        None => 0,
    };
    let digits = match opcode {
        Opcode::HLT => {
            return Ok(Value::zero());
        },
        Opcode::ADD => Value::from_digits(1, operand_num),
        Opcode::SUB => Value::from_digits(2, operand_num),
        Opcode::STA => Value::from_digits(3, operand_num),
        Opcode::LDA => Value::from_digits(5, operand_num),
        Opcode::BRA => Value::from_digits(6, operand_num),
        Opcode::BRZ => Value::from_digits(7, operand_num),
        Opcode::BRP => Value::from_digits(8, operand_num),
        Opcode::INP => Value::from_digits(9, 1),
        Opcode::OUT => Value::from_digits(9, 2),
        Opcode::OTC => Value::from_digits(9, 22),
        Opcode::DAT => {
            return match Value::new(operand_num) {
                Ok(value) => Ok(value),
                Err(_) => Err(EncodeError::DataOutOfRange),
            };
        },
    };
    match digits {
        Ok(value) => Ok(value),
        Err(_) => Err(EncodeError::AddressOutOfRange),
    }
}

/// The mathematical form of machine code, or of the reason why there is none.
pub open spec fn code_result_view(result: Result<Vec<Value>, EncodeError>) -> Result<
    Seq<int>,
    EncodeErrorView,
> {
    match result {
        Ok(code) => Ok(integers_of(code@)),
        Err(error) => Err(error@),
    }
}

/// The machine code of `lines`: one word for each instruction among them.
pub fn generate_machine_code(lines: Vec<Line>) -> (r: Result<Vec<Value>, EncodeError>)
    ensures
        code_result_view(r) == machine_code(line_views(lines@)),
{
    let mut output: Vec<Value> = Vec::new();
    let labels = generate_label_table(&lines);
    let ghost views = line_views(lines@);
    let mut index: usize = 0;
    assert(integers_of(output@) =~= Seq::<int>::empty());
    while index < lines.len()
        invariant
            index <= lines.len(),
            views == line_views(lines@),
            labels@ == label_table(views),
            code_result_view(Ok(output)) == machine_code_with(views.take(index as int), labels@),
        decreases lines.len() - index,
    {
        let ghost before = integers_of(output@);
        assert(views.take(index + 1).drop_last() =~= views.take(index as int));
        match &lines[index] {
            Line::Instruction { opcode, operand, .. } => {
                match encode_instruction(*opcode, operand, &labels) {
                    Ok(word) => {
                        output.push(word);
                        assert(integers_of(output@) =~= before.push(word@));
                    },
                    Err(error) => {
                        proof {
                            lemma_machine_code_error_stays(views, labels@, index + 1);
                        }
                        return Err(error);
                    },
                }
            },
            Line::Empty => {},
        }
        index += 1;
    }
    assert(views.take(lines.len() as int) =~= views);
    Ok(output)
}

/// Once a leading part of a program has no machine code, for some reason, the
/// whole has none, for that reason.
pub proof fn lemma_machine_code_error_stays(
    lines: Seq<LineView>,
    labels: Map<Seq<char>, nat>,
    k: int,
)
    requires
        0 <= k <= lines.len(),
        machine_code_with(lines.take(k), labels) is Err,
    ensures
        machine_code_with(lines, labels) == machine_code_with(lines.take(k), labels),
    decreases lines.len() - k,
{
    if k < lines.len() {
        assert(lines.take(k + 1).drop_last() =~= lines.take(k));
        lemma_machine_code_error_stays(lines, labels, k + 1);
    } else {
        assert(lines.take(k) =~= lines);
    }
}

/// The mathematical form of what assembling gave.
pub open spec fn assembly_view(result: Result<Vec<Value>, AssemblerError>) -> Result<
    Seq<int>,
    AssemblerErrorView,
> {
    match result {
        Ok(code) => Ok(integers_of(code@)),
        Err(error) => Err(error@),
    }
}

/// Once a leading part of the lines read holds one that could not be read,
/// the first such line is the first of the whole.
pub proof fn lemma_parse_error_stays(results: Seq<Result<LineView, ParseErrorView>>, k: int)
    requires
        0 <= k <= results.len(),
        instructions_of(results.take(k)) is Err,
    ensures
        instructions_of(results) == instructions_of(results.take(k)),
    decreases results.len() - k,
{
    if k < results.len() {
        assert(results.take(k + 1).drop_last() =~= results.take(k));
        lemma_parse_error_stays(results, k + 1);
    } else {
        assert(results.take(k) =~= results);
    }
}

/// Turns a program into machine code: one word for each instruction, to be
/// loaded from address zero.
pub fn assemble(program: &str) -> (r: Result<Vec<Value>, AssemblerError>)
    ensures
        assembly_view(r) == assembled(program@),
{
    let parsed_lines = parse_assembly(program);
    let ghost results = parsed(program@);
    let mut valid_lines: Vec<Line> = Vec::new();
    assert(line_views(valid_lines@) =~= Seq::<LineView>::empty());
    // Go on with the instructions only, and stop at the first line that is none
    for line in it: parsed_lines
        invariant
            results == parsed(program@),
            line_result_views(it.seq()) == results,
            instructions_of(results.take(it.index() as int)) == Ok::<
                Seq<LineView>,
                ParseErrorView,
            >(line_views(valid_lines@)),
    {
        let ghost before = line_views(valid_lines@);
        assert(results.take(it.index() + 1).drop_last() =~= results.take(it.index() as int));
        match line {
            Ok(line) => match line {
                Line::Empty => {},
                Line::Instruction { .. } => {
                    valid_lines.push(line);
                    assert(line_views(valid_lines@) =~= before.push(line@));
                },
            },
            Err(error) => {
                proof {
                    lemma_parse_error_stays(results, it.index() + 1);
                }
                return Err(AssemblerError::ParseError(error));
            },
        }
    }
    assert(results.take(results.len() as int) =~= results);
    match generate_machine_code(valid_lines) {
        Ok(machine_code) => Ok(machine_code),
        Err(error) => Err(AssemblerError::MachineCodeError(error)),
    }
}

/// The memory image of machine code: the two bytes of each word, the high
/// one first, in the order of the words.
pub fn machine_code_bytes(machine_code: &Vec<Value>) -> (r: Vec<u8>)
    ensures
        r@ == image_of(integers_of(machine_code@)),
{
    let mut bytes: Vec<u8> = Vec::new();
    let ghost words = integers_of(machine_code@);
    let mut index: usize = 0;
    while index < machine_code.len()
        invariant
            index <= machine_code.len(),
            words == integers_of(machine_code@),
            bytes@ == image_of(words.take(index as int)),
        decreases machine_code.len() - index,
    {
        let pair: [u8; 2] = machine_code[index].to_be_bytes();
        bytes.push(pair[0]);
        bytes.push(pair[1]);
        assert(words.take(index + 1).drop_last() =~= words.take(index as int));
        index += 1;
    }
    assert(words.take(machine_code.len() as int) =~= words);
    bytes
}

impl ParseErrorType {
    /// The words that tell of the error.
    pub open spec fn text(self) -> Seq<char> {
        match self {
            ParseErrorType::InvalidOpcode(opcode) => "Invalid opcode: "@ + opcode@,
            ParseErrorType::OperandOutOfRange(value) => "Operand out of range: "@ + decimal_of(
                value as int,
            ),
        }
    }

    /// The error in words.
    pub fn to_string(&self) -> (r: String)
        ensures
            r@ == self.text(),
    {
        match self {
            ParseErrorType::InvalidOpcode(opcode) => {
                let mut message = "Invalid opcode: ".to_owned();
                message.append(opcode.as_str());
                message
            },
            ParseErrorType::OperandOutOfRange(value) => {
                let mut message = "Operand out of range: ".to_owned();
                let number = decimal_string(*value as i64);
                message.append(number.as_str());
                message
            },
        }
    }
}

impl ParseError {
    /// The words that tell of the error.
    pub open spec fn text(self) -> Seq<char> {
        "Parse error on line "@ + decimal_of(self.line as int) + ": "@ + self.error.text()
    }

    /// The error in words.
    pub fn to_string(&self) -> (r: String)
        ensures
            r@ == self.text(),
    {
        let mut message = "Parse error on line ".to_owned();
        push_decimal(&mut message, self.line as u64);
        message.append(": ");
        let error = self.error.to_string();
        message.append(error.as_str());
        message
    }
}

impl EncodeError {
    /// The words that tell of the error.
    pub open spec fn text(self) -> Seq<char> {
        match self {
            EncodeError::LabelNotFound(label) => "Label not found: "@ + label@,
            EncodeError::AddressOutOfRange => "Last two digits out of range"@,
            EncodeError::DataOutOfRange => "DAT: Value out of range"@,
        }
    }

    /// The error in words.
    pub fn to_string(&self) -> (r: String)
        ensures
            r@ == self.text(),
    {
        match self {
            EncodeError::LabelNotFound(label) => {
                let mut message = "Label not found: ".to_owned();
                message.append(label.as_str());
                message
            },
            EncodeError::AddressOutOfRange => "Last two digits out of range".to_owned(),
            EncodeError::DataOutOfRange => "DAT: Value out of range".to_owned(),
        }
    }
}

impl AssemblerError {
    /// The words that tell of the error.
    pub open spec fn text(self) -> Seq<char> {
        match self {
            AssemblerError::ParseError(error) => error.text(),
            AssemblerError::MachineCodeError(error) => "Machine code error: "@ + error.text(),
        }
    }

    /// The error in words.
    pub fn to_string(&self) -> (r: String)
        ensures
            r@ == self.text(),
    {
        match self {
            AssemblerError::ParseError(error) => error.to_string(),
            AssemblerError::MachineCodeError(error) => {
                let mut message = "Machine code error: ".to_owned();
                let reason = error.to_string();
                message.append(reason.as_str());
                message
            },
        }
    }
}

} // verus!
