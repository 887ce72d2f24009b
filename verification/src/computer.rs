use vstd::prelude::*;
use std::path::PathBuf;
use crate::cli::ExecuteArgs;
use crate::machine::image_cells;
use crate::machine::image_is_valid;
use crate::machine::image_word;
use crate::machine::Machine;
use crate::machine::RuntimeFault;
use crate::machine::RAM_SIZE;
use crate::output::Output;
use crate::output::OutputConfig;
use crate::text::decimal_of;
use crate::text::i16_of;
use crate::text::lemma_decimal_of_shape;
use crate::text::lemma_integer_of_decimal;
use crate::text::lemma_words_of_one_word;
use crate::text::parse_i16;
use crate::text::split_whitespace;
use crate::text::words_of;
use crate::value::in_domain;
use crate::value::integers_of;
use crate::value::Value;

verus! {

/// `std::path::PathBuf`, which the library hands on without looking inside.
#[verifier::external_type_specification]
#[verifier::external_body]
pub struct ExPathBuf(PathBuf);

pub struct ComputerConfig {
    /// Where the memory image to start from is kept, if there is one.
    pub load_ram_file_path: Option<PathBuf>,
    /// Whether registers, output and memory are to be shown before each clock cycle.
    pub print_computer_state: bool,
    /// Whether output is to be shown as soon as an instruction writes it.
    pub print_raw_output: bool,
    /// The values that the program will read, in order, where they are known
    /// beforehand; without them the program's user is asked for each.
    pub input: Option<Vec<Value>>,
}

impl ComputerConfig {
    /// The input values given beforehand, none where the user is to be asked.
    pub open spec fn scripted_input(self) -> Seq<int> {
        match self.input {
            Some(values) => integers_of(values@),
            None => Seq::empty(),
        }
    }

    /// The configuration that the command line asks for. Of two places for
    /// the memory image, the one given with the name of the option counts.
    pub fn from_args(args: ExecuteArgs) -> (r: ComputerConfig)
        ensures
            r.load_ram_file_path == (if args.ram is Some {
                args.ram
            } else {
                args.ram_legacy
            }),
            r.print_computer_state == !args.output_only,
            r.print_raw_output == args.output_only,
            r.input is None,
    {
        ComputerConfig {
            load_ram_file_path: match args.ram {
                Some(path) => Some(path),
                None => args.ram_legacy,
            },
            print_computer_state: !args.output_only,
            print_raw_output: args.output_only,
            input: None,
        }
    }
}

impl Default for ComputerConfig {
    fn default() -> (r: ComputerConfig)
        ensures
            r.load_ram_file_path is None,
            r.print_computer_state,
            !r.print_raw_output,
            r.input is None,
    {
        ComputerConfig {
            load_ram_file_path: None,
            print_computer_state: true,
            print_raw_output: false,
            input: None,
        }
    }
}

struct Registers {
    program_counter: usize,
    instruction_register: i8,
    address_register: i16,
    accumulator: Value,
}

pub struct Computer {
    ram: [Value; 100],
    registers: Registers,
    pub output: Output,
    load_ram_file_path: Option<PathBuf>,
    print_computer_state: bool,
    interactive: bool,
    input: Vec<Value>,
}

impl View for Computer {
    type V = Machine;

    closed spec fn view(&self) -> Machine {
        Machine {
            ram: integers_of(self.ram@),
            program_counter: self.registers.program_counter as int,
            instruction_register: self.registers.instruction_register as int,
            address_register: self.registers.address_register as int,
            accumulator: self.registers.accumulator@,
            output: self.output@,
            after_number: self.output.after_number(),
            input: integers_of(self.input@),
        }
    }
}

impl Computer {
    /// Whether input is asked of the program's user, not given beforehand.
    pub closed spec fn interactive(&self) -> bool {
        self.interactive
    }

    /// Whether output is to be shown as soon as it is written.
    pub closed spec fn immediate(&self) -> bool {
        self.output.immediate()
    }

    /// Whether the state is to be shown before each clock cycle.
    pub closed spec fn traced(&self) -> bool {
        self.print_computer_state
    }

    /// Where the memory image to start from is kept, if there is one.
    pub closed spec fn image_path(&self) -> Option<PathBuf> {
        self.load_ram_file_path
    }

    pub fn new(config: ComputerConfig) -> (r: Computer)
        ensures
            r@ == Machine::initial(config.scripted_input()),
            r.interactive() == (config.input is None),
            r.immediate() == config.print_raw_output,
            r.traced() == config.print_computer_state,
            r.image_path() == config.load_ram_file_path,
    {
        let interactive = config.input.is_none();
        let input: Vec<Value> = match config.input {
            Some(values) => values,
            None => Vec::new(),
        };
        let r = Computer {
            ram: [Value::zero(); 100],
            registers: Registers {
                program_counter: 0,
                instruction_register: 0,
                address_register: 0,
                accumulator: Value::zero(),
            },
            output: Output::new(OutputConfig { immediately_print_output: config.print_raw_output }),
            load_ram_file_path: config.load_ram_file_path,
            print_computer_state: config.print_computer_state,
            interactive,
            input,
        };
        assert(r@.input =~= config.scripted_input());
        assert(r@.ram =~= Machine::initial(config.scripted_input()).ram);
        r
    }

    /// Whether `self` was set up as `other` was: the same answers on where the
    /// memory image is kept, on what is to be shown, and on who gives input.
    pub open spec fn same_settings(&self, other: &Computer) -> bool {
        &&& self.image_path() == other.image_path()
        &&& self.traced() == other.traced()
        &&& self.interactive() == other.interactive()
        &&& self.immediate() == other.immediate()
    }

    /// Whether the registers hold what a decoded memory word leaves there: an
    /// address from 0 to 99 beside every opcode digit above zero.
    spec fn decoded(&self) -> bool {
        self.registers.instruction_register > 0 ==> 0 <= self.registers.address_register < 100
    }

    pub fn program_counter(&self) -> (r: usize)
        ensures
            r == self@.program_counter,
    {
        self.registers.program_counter
    }

    pub fn instruction_register(&self) -> (r: i8)
        ensures
            r == self@.instruction_register,
    {
        self.registers.instruction_register
    }

    pub fn address_register(&self) -> (r: i16)
        ensures
            r == self@.address_register,
    {
        self.registers.address_register
    }

    pub fn accumulator(&self) -> (r: Value)
        ensures
            r@ == self@.accumulator,
    {
        self.registers.accumulator
    }

    pub fn set_accumulator(&mut self, value: Value)
        ensures
            final(self)@ == (Machine { accumulator: value@, ..old(self)@ }),
            final(self).same_settings(old(self)),
    {
        self.registers.accumulator = value;
    }

    /// The content of the memory cell at `address`, where there is such a cell.
    pub fn read_ram(&self, address: usize) -> (r: Option<Value>)
        ensures
            r is Some <==> address < RAM_SIZE,
            r matches Some(v) ==> v@ == self@.ram[address as int],
    {
        if address < 100 {
            Some(self.ram[address])
        } else {
            None
        }
    }

    /// Puts `value` into the memory cell at `address`; says whether there is
    /// such a cell, and changes nothing where there is none.
    pub fn write_ram(&mut self, address: usize, value: Value) -> (r: bool)
        ensures
            r == (address < RAM_SIZE),
            r ==> final(self)@ == (Machine {
                ram: old(self)@.ram.update(address as int, value@),
                ..old(self)@
            }),
            !r ==> final(self)@ == old(self)@,
            final(self).same_settings(old(self)),
    {
        if address < 100 {
            self.ram[address] = value;
            assert(self@.ram =~= old(self)@.ram.update(address as int, value@));
            true
        } else {
            false
        }
    }

    pub fn print_computer_state(&self) -> (r: bool)
        ensures
            r == self.traced(),
    {
        self.print_computer_state
    }

    pub fn print_raw_output(&self) -> (r: bool)
        ensures
            r == self.immediate(),
    {
        self.output.immediately_print_output()
    }

    pub fn load_ram_file_path(&self) -> (r: &Option<PathBuf>)
        ensures
            *r == self.image_path(),
    {
        &self.load_ram_file_path
    }

    /// Whether input is asked of the program's user, not given beforehand.
    pub fn is_interactive(&self) -> (r: bool)
        ensures
            r == self.interactive(),
    {
        self.interactive
    }

    /// Whether the next clock cycle asks for input and would find none.
    pub fn awaits_input(&self) -> (r: bool)
        ensures
            r == (self@.step() == Err::<(Machine, bool), RuntimeFault>(RuntimeFault::InputExhausted)),
    {
        if self.registers.program_counter >= 100 {
            return false;
        }
        let word = self.ram[self.registers.program_counter];
        word.first_digit() == 9 && word.last_two_digits() == 1 && self.input.len() == 0
    }

    /// Hands the program one more input value, to be read after those it has.
    pub fn push_input(&mut self, value: Value)
        ensures
            final(self)@ == (Machine { input: old(self)@.input.push(value@), ..old(self)@ }),
            final(self).same_settings(old(self)),
    {
        self.input.push(value);
        assert(self@.input =~= old(self)@.input.push(value@));
    }

    /// Whether `data_bytes` is a memory image that can be loaded: whether
    /// every word of it is in the value domain.
    pub fn is_loadable(data_bytes: &Vec<u8>) -> (r: bool)
        ensures
            r == image_is_valid(data_bytes@),
    {
        let mut cell: usize = 0;
        while cell < 100 && 2 * cell < data_bytes.len()
            invariant
                cell <= 100,
                cell <= image_cells(data_bytes@),
                forall|c: int| 0 <= c < cell ==> in_domain(#[trigger] image_word(data_bytes@, c)),
            decreases 100 - cell,
        {
            let high: u8 = data_bytes[2 * cell];
            let low: u8 = if 2 * cell + 1 < data_bytes.len() {
                data_bytes[2 * cell + 1]
            } else {
                0
            };
            if Value::from_be_bytes([high, low]).is_err() {
                assert(!in_domain(image_word(data_bytes@, cell as int)));
                return false;
            }
            cell += 1;
        }
        true
    }

    /// Lays a memory image over the leading cells: each pair of bytes is one
    /// word, the high byte first. Returns the number of cells filled.
    pub fn load_data_to_ram(&mut self, data_bytes: Vec<u8>) -> (touched_addresses: i32)
        requires
            image_is_valid(data_bytes@),
        ensures
            final(self)@ == old(self)@.loaded(data_bytes@),
            touched_addresses == image_cells(data_bytes@),
            final(self).same_settings(old(self)),
    {
        let mut touched_addresses: i32 = 0;
        let mut cell: usize = 0;
        while cell < 100 && 2 * cell < data_bytes.len()
            invariant
                cell <= 100,
                cell <= image_cells(data_bytes@),
                touched_addresses == cell,
                image_is_valid(data_bytes@),
                self.same_settings(old(self)),
                self@ == (Machine { ram: self@.ram, ..old(self)@ }),
                self@.ram.len() == 100,
                forall|c: int|
                    0 <= c < 100 ==> #[trigger] self@.ram[c] == if c < cell {
                        image_word(data_bytes@, c)
                    } else {
                        old(self)@.ram[c]
                    },
            decreases 100 - cell,
        {
            let high: u8 = data_bytes[2 * cell];
            let low: u8 = if 2 * cell + 1 < data_bytes.len() {
                data_bytes[2 * cell + 1]
            } else {
                0
            };
            let ghost before = self@.ram;
            if let Ok(value) = Value::from_be_bytes([high, low]) {
                self.ram[cell] = value;
            }
            assert(self@.ram =~= before.update(cell as int, image_word(data_bytes@, cell as int)));
            touched_addresses += 1;
            cell += 1;
        }
        assert(self@.ram =~= old(self)@.loaded(data_bytes@).ram);
        touched_addresses
    }

    /// Loads `data_bytes` where it is a memory image that can be loaded, and
    /// returns the number of cells filled; changes nothing where it is not.
    pub fn try_load_data_to_ram(&mut self, data_bytes: Vec<u8>) -> (r: Option<i32>)
        ensures
            image_is_valid(data_bytes@) ==> r == Some(image_cells(data_bytes@) as i32)
                && final(self)@ == old(self)@.loaded(data_bytes@),
            !image_is_valid(data_bytes@) ==> r is None && final(self)@ == old(self)@,
            final(self).same_settings(old(self)),
    {
        if Computer::is_loadable(&data_bytes) {
            Some(self.load_data_to_ram(data_bytes))
        } else {
            None
        }
    }

    /// Takes the next input value, where one is left.
    fn get_input(&mut self) -> (r: Option<Value>)
        ensures
            old(self)@.input.len() == 0 ==> r is None && *final(self) == *old(self),
            old(self)@.input.len() > 0 ==> r is Some && r->Some_0@ == old(self)@.input[0]
                && final(self)@ == (Machine { input: old(self)@.input.drop_first(), ..old(self)@ }),
            final(self).same_settings(old(self)),
            final(self).decoded() == old(self).decoded(),
    {
        if self.input.len() == 0 {
            None
        } else {
            let value = self.input.remove(0);
            assert(self@.input =~= old(self)@.input.drop_first());
            Some(value)
        }
    }

    /// Carries out the instruction that stands in the instruction registers.
    /// Says whether the computer goes on; a fault changes nothing.
    fn execute_instruction(&mut self) -> (r: Result<bool, RuntimeFault>)
        requires
            old(self).decoded(),
        ensures
            match old(self)@.execute() {
                Ok((next, goes_on)) => r == Ok::<bool, RuntimeFault>(goes_on) && final(self)@
                    == next,
                Err(fault) => r == Err::<bool, RuntimeFault>(fault) && *final(self) == *old(self),
            },
            final(self).same_settings(old(self)),
    {
        let opcode: i8 = self.registers.instruction_register;
        let address: i16 = self.registers.address_register;
        match opcode {
            0 => {
                return Ok(false);
            },
            1 => {
                let operand = self.ram[address as usize];
                core::ops::AddAssign::add_assign(&mut self.registers.accumulator, operand);
            },
            2 => {
                let operand = self.ram[address as usize];
                core::ops::SubAssign::sub_assign(&mut self.registers.accumulator, operand);
            },
            3 => {
                self.ram[address as usize] = self.registers.accumulator;
                assert(self@.ram =~= old(self)@.ram.update(
                    address as int,
                    old(self)@.accumulator,
                ));
            },
            4 => {
                return Err(RuntimeFault::ReservedOpcode);
            },
            5 => {
                self.registers.accumulator = self.ram[address as usize];
            },
            6 => {
                self.registers.program_counter = address as usize;
            },
            7 => {
                if self.registers.accumulator.is_zero() {
                    self.registers.program_counter = address as usize;
                }
            },
            8 => {
                if self.registers.accumulator.is_non_negative() {
                    self.registers.program_counter = address as usize;
                }
            },
            9 => {
                if address == 1 {
                    match self.get_input() {
                        Some(value) => {
                            self.registers.accumulator = value;
                        },
                        None => {
                            return Err(RuntimeFault::InputExhausted);
                        },
                    }
                }
                if address == 2 {
                    self.output.push_int(self.registers.accumulator);
                }
                if address == 22 {
                    let character: char = self.registers.accumulator.to_char();
                    self.output.push_char(character);
                }
            },
            _ => {
                return Err(RuntimeFault::UnhandledOpcode(opcode));
            },
        }
        Ok(true)
    }

    /// One clock cycle: fetch, decode, execute. Says whether the computer goes
    /// on (`true`) or has halted (`false`). A fault changes nothing.
    pub fn clock_cycle(&mut self) -> (r: Result<bool, RuntimeFault>)
        ensures
            match old(self)@.step() {
                Ok((next, goes_on)) => r == Ok::<bool, RuntimeFault>(goes_on) && final(self)@
                    == next,
                Err(fault) => r == Err::<bool, RuntimeFault>(fault) && final(self)@ == old(self)@,
            },
            final(self).same_settings(old(self)),
    {
        let ram_index: usize = self.registers.program_counter;
        if ram_index >= 100 {
            return Err(RuntimeFault::AddressOutOfRange(ram_index));
        }
        let instruction_register: i8 = self.registers.instruction_register;
        let address_register: i16 = self.registers.address_register;
        self.registers.program_counter = ram_index + 1;

        let instruction = self.ram[ram_index];
        let instruction_code: i16 = instruction.first_digit();
        let instruction_address: i16 = instruction.last_two_digits();
        let word: i16 = instruction.get();
        self.registers.instruction_register = instruction_code as i8;
        self.registers.address_register = instruction_address;

        let r = self.execute_instruction();
        if r.is_err() {
            self.registers.program_counter = ram_index;
            self.registers.instruction_register = instruction_register;
            self.registers.address_register = address_register;
        }
        r
    }

    /// Runs clock cycles until one halts or faults, and no more than
    /// `max_cycles` of them. Says what the last cycle said: `Ok(false)` after a
    /// halt, `Ok(true)` where the computer would still go on.
    pub fn run(&mut self, max_cycles: u64) -> (r: Result<bool, RuntimeFault>)
        ensures
            final(self)@ == old(self)@.run(max_cycles as nat).0,
            r == old(self)@.run(max_cycles as nat).1,
            final(self).same_settings(old(self)),
    {
        let mut cycles: u64 = 0;
        while cycles < max_cycles
            invariant
                cycles <= max_cycles,
                old(self)@.run(max_cycles as nat) == self@.run((max_cycles - cycles) as nat),
                self.same_settings(old(self)),
            decreases max_cycles - cycles,
        {
            match self.clock_cycle() {
                Ok(goes_on) => {
                    if !goes_on {
                        return Ok(false);
                    }
                },
                Err(fault) => {
                    return Err(fault);
                },
            }
            cycles += 1;
        }
        Ok(true)
    }
}

/// Builds a computer, lays the memory image `data_bytes` over its cells and
/// runs it for at most `max_cycles` clock cycles. Returns the computer as the
/// run left it, and what the last cycle said.
pub fn run(config: ComputerConfig, data_bytes: Vec<u8>, max_cycles: u64) -> (r: (
    Computer,
    Result<bool, RuntimeFault>,
))
    requires
        image_is_valid(data_bytes@),
    ensures
        (r.0@, r.1) == Machine::initial(config.scripted_input()).loaded(data_bytes@).run(
            max_cycles as nat,
        ),
        r.0.interactive() == (config.input is None),
        r.0.immediate() == config.print_raw_output,
        r.0.traced() == config.print_computer_state,
        r.0.image_path() == config.load_ram_file_path,
{
    let mut computer = Computer::new(config);
    computer.load_data_to_ram(data_bytes);
    let result = computer.run(max_cycles);
    (computer, result)
}

/// Why a line of text is no input value.
#[derive(Copy, Clone, Debug, PartialEq, Eq, Structural)]
pub enum InputError {
    /// The text is no 16-bit integer in decimal form.
    NotAnInteger,
    /// The text is an integer outside the value domain.
    OutOfRange(i16),
}

/// The input value that the line `text` stands for: the integer that is its
/// one word, which has to be in the value domain.
pub open spec fn input_of(text: Seq<char>) -> Result<int, InputError> {
    let words = words_of(text);
    if words.len() == 1 {
        match i16_of(words[0]) {
            Some(number) => if in_domain(number as int) {
                Ok(number as int)
            } else {
                Err(InputError::OutOfRange(number))
            },
            None => Err(InputError::NotAnInteger),
        }
    } else {
        Err(InputError::NotAnInteger)
    }
}

/// The decimal text of a domain member is read as that value.
pub proof fn lemma_input_of_decimal(v: int)
    requires
        in_domain(v),
    ensures
        input_of(decimal_of(v)) == Ok::<int, InputError>(v),
{
    lemma_decimal_of_shape(v);
    lemma_words_of_one_word(decimal_of(v));
    lemma_integer_of_decimal(v);
}

/// Reads a line that the program's user typed as an input value. White space
/// around the number counts for nothing.
pub fn parse_input(input: &str) -> (r: Result<Value, InputError>)
    ensures
        match input_of(input@) {
            Ok(number) => r is Ok && r->Ok_0@ == number,
            Err(error) => r == Err::<Value, InputError>(error),
        },
{
    let words = split_whitespace(input);
    if words.len() != 1 {
        return Err(InputError::NotAnInteger);
    }
    match parse_i16(words[0].as_str()) {
        Some(number) => match Value::new(number) {
            Ok(value) => Ok(value),
            Err(_) => Err(InputError::OutOfRange(number)),
        },
        None => Err(InputError::NotAnInteger),
    }
}

} // verus!
