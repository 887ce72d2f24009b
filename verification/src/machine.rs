use vstd::prelude::*;
use crate::output::number_text;
use crate::text::decimal_of;
use crate::text::decimal_string;
use crate::text::push_decimal;
use crate::value::bytes_of_word;
use crate::value::char_of;
use crate::value::first_digit_of;
use crate::value::in_domain;
use crate::value::last_two_digits_of;
use crate::value::lemma_bytes_round_trip;
use crate::value::word_of_bytes;
use crate::value::wrap;

verus! {

/// The number of memory cells.
pub const RAM_SIZE: usize = 100;

/// Why a clock cycle could not be carried out.
#[derive(Copy, Clone, Debug, PartialEq, Eq, Structural)]
pub enum RuntimeFault {
    /// The program counter points past the last memory cell.
    AddressOutOfRange(usize),
    /// The word fetched has opcode digit 4, which stands for no instruction.
    ReservedOpcode,
    /// The word fetched has an opcode digit below zero.
    UnhandledOpcode(i8),
    /// The program asks for input and none is left.
    InputExhausted,
}

impl RuntimeFault {
    /// The words that tell of the fault.
    pub open spec fn text(self) -> Seq<char> {
        match self {
            RuntimeFault::AddressOutOfRange(address) => "Address out of range: "@ + decimal_of(
                address as int,
            ),
            RuntimeFault::ReservedOpcode => "Opcode 4 is not allowed!"@,
            RuntimeFault::UnhandledOpcode(opcode) => "Unhandled opcode: "@ + decimal_of(
                opcode as int,
            ),
            RuntimeFault::InputExhausted => "No more input values available"@,
        }
    }

    /// The fault in words.
    pub fn to_string(&self) -> (r: String)
        ensures
            r@ == self.text(),
    {
        match self {
            RuntimeFault::AddressOutOfRange(address) => {
                let mut message = "Address out of range: ".to_owned();
                push_decimal(&mut message, *address as u64);
                message
            },
            RuntimeFault::ReservedOpcode => "Opcode 4 is not allowed!".to_owned(),
            RuntimeFault::UnhandledOpcode(opcode) => {
                let mut message = "Unhandled opcode: ".to_owned();
                let number = decimal_string(*opcode as i64);
                message.append(number.as_str());
                message
            },
            RuntimeFault::InputExhausted => "No more input values available".to_owned(),
        }
    }
}

/// The state of the computer as plain mathematical values.
pub struct Machine {
    pub ram: Seq<int>,
    pub program_counter: int,
    pub instruction_register: int,
    pub address_register: int,
    pub accumulator: int,
    /// What the program has written.
    pub output: Seq<char>,
    /// Whether the last thing written was a number.
    pub after_number: bool,
    /// The input values not yet read, the next one first.
    pub input: Seq<int>,
}

impl Machine {
    /// A hundred cells, and every cell, the accumulator and every input value
    /// in the value domain.
    pub open spec fn wf(self) -> bool {
        &&& self.ram.len() == RAM_SIZE
        &&& forall|i: int| 0 <= i < self.ram.len() ==> in_domain(#[trigger] self.ram[i])
        &&& in_domain(self.accumulator)
        &&& forall|i: int| 0 <= i < self.input.len() ==> in_domain(#[trigger] self.input[i])
    }

    /// The state of a computer that has not run yet: every cell and register
    /// zero, nothing written, and `input` waiting to be read.
    pub open spec fn initial(input: Seq<int>) -> Machine {
        Machine {
            ram: Seq::new(RAM_SIZE as nat, |i: int| 0int),
            program_counter: 0,
            instruction_register: 0,
            address_register: 0,
            accumulator: 0,
            output: Seq::empty(),
            after_number: false,
            input,
        }
    }

    /// The state after fetch and decode of `word`: the program counter has
    /// moved on, and the word's digits stand in the two instruction registers.
    pub open spec fn decoded(self, word: int) -> Machine {
        Machine {
            program_counter: self.program_counter + 1,
            instruction_register: first_digit_of(word),
            address_register: last_two_digits_of(word),
            ..self
        }
    }

    /// What the instruction in the instruction registers does: the next state
    /// and whether the computer goes on, or the fault that stops it.
    pub open spec fn execute(self) -> Result<(Machine, bool), RuntimeFault> {
        let opcode = self.instruction_register;
        let address = self.address_register;
        if opcode == 0 {
            Ok((self, false))
        } else if opcode == 1 {
            Ok((Machine { accumulator: wrap(self.accumulator + self.ram[address]), ..self }, true))
        } else if opcode == 2 {
            Ok((Machine { accumulator: wrap(self.accumulator - self.ram[address]), ..self }, true))
        } else if opcode == 3 {
            Ok((Machine { ram: self.ram.update(address, self.accumulator), ..self }, true))
        } else if opcode == 4 {
            Err(RuntimeFault::ReservedOpcode)
        } else if opcode == 5 {
            Ok((Machine { accumulator: self.ram[address], ..self }, true))
        } else if opcode == 6 {
            Ok((Machine { program_counter: address, ..self }, true))
        } else if opcode == 7 {
            if self.accumulator == 0 {
                Ok((Machine { program_counter: address, ..self }, true))
            } else {
                Ok((self, true))
            }
        } else if opcode == 8 {
            if self.accumulator >= 0 {
                Ok((Machine { program_counter: address, ..self }, true))
            } else {
                Ok((self, true))
            }
        } else if opcode == 9 {
            if address == 1 {
                if self.input.len() == 0 {
                    Err(RuntimeFault::InputExhausted)
                } else {
                    Ok(
                        (
                            Machine {
                                accumulator: self.input[0],
                                input: self.input.drop_first(),
                                ..self
                            },
                            true,
                        ),
                    )
                }
            } else if address == 2 {
                Ok(
                    (
                        Machine {
                            output: self.output + number_text(self.after_number, self.accumulator),
                            after_number: true,
                            ..self
                        },
                        true,
                    ),
                )
            } else if address == 22 {
                Ok(
                    (
                        Machine {
                            output: self.output.push(char_of(self.accumulator)),
                            after_number: false,
                            ..self
                        },
                        true,
                    ),
                )
            } else {
                Ok((self, true))
            }
        } else {
            Err(RuntimeFault::UnhandledOpcode(opcode as i8))
        }
    }

    /// One clock cycle: fetch the word at the program counter, decode it,
    /// execute it. A fault leaves no next state.
    pub open spec fn step(self) -> Result<(Machine, bool), RuntimeFault> {
        if 0 <= self.program_counter < RAM_SIZE {
            self.decoded(self.ram[self.program_counter]).execute()
        } else {
            Err(RuntimeFault::AddressOutOfRange(self.program_counter as usize))
        }
    }

    /// At most `cycles` clock cycles, up to the first that halts or faults:
    /// the state reached, and what the last cycle said. A fault leaves the
    /// state as it was before the cycle that met it.
    pub open spec fn run(self, cycles: nat) -> (Machine, Result<bool, RuntimeFault>)
        decreases cycles,
    {
        if cycles == 0 {
            (self, Ok(true))
        } else {
            match self.step() {
                Err(fault) => (self, Err(fault)),
                Ok((next, goes_on)) => if goes_on {
                    next.run((cycles - 1) as nat)
                } else {
                    (next, Ok(false))
                },
            }
        }
    }

    /// The state with the memory image `data` laid over the leading cells.
    pub open spec fn loaded(self, data: Seq<u8>) -> Machine {
        Machine {
            ram: Seq::new(
                self.ram.len(),
                |cell: int|
                    if cell < image_cells(data) {
                        image_word(data, cell)
                    } else {
                        self.ram[cell]
                    },
            ),
            ..self
        }
    }
}

/// The number of cells that the memory image `data` fills: one for each pair
/// of bytes begun, and no more than there are cells.
pub open spec fn image_cells(data: Seq<u8>) -> int {
    if data.len() >= 2 * RAM_SIZE {
        RAM_SIZE as int
    } else {
        (data.len() as int + 1) / 2
    }
}

/// The word that the memory image `data` holds for `cell`: its two bytes, the
/// high one first; a low byte that is not there counts as zero.
pub open spec fn image_word(data: Seq<u8>, cell: int) -> int {
    if 2 * cell + 1 < data.len() {
        word_of_bytes(data[2 * cell], data[2 * cell + 1])
    } else {
        word_of_bytes(data[2 * cell], 0)
    }
}

/// Whether every word of the memory image `data` is in the value domain.
pub open spec fn image_is_valid(data: Seq<u8>) -> bool {
    forall|cell: int| 0 <= cell < image_cells(data) ==> in_domain(#[trigger] image_word(data, cell))
}

/// The memory image that holds `words`: two bytes for each, the high one
/// first.
pub open spec fn image_of(words: Seq<int>) -> Seq<u8>
    decreases words.len(),
{
    if words.len() == 0 {
        Seq::empty()
    } else {
        image_of(words.drop_last()) + bytes_of_word(words.last())
    }
}

/// The memory image of some words holds two bytes for each, and reads back
/// as those words.
pub proof fn lemma_image_of_words(words: Seq<int>)
    requires
        forall|i: int| 0 <= i < words.len() ==> in_domain(#[trigger] words[i]),
    ensures
        image_of(words).len() == 2 * words.len(),
        forall|i: int| 0 <= i < words.len() ==> #[trigger] image_word(image_of(words), i) == words[i],
    decreases words.len(),
{
    if words.len() > 0 {
        let before = words.drop_last();
        lemma_image_of_words(before);
        lemma_bytes_round_trip(words.last());
        let image = image_of(words);
        assert forall|i: int| 0 <= i < words.len() implies #[trigger] image_word(image, i)
            == words[i] by {
            if i < before.len() {
                assert(image_word(image_of(before), i) == before[i]);
            }
        }
    }
}

/// Machine code of no more words than there are cells, written as a memory
/// image and loaded, stands in the leading cells, word for word, and leaves
/// the other cells as they were.
pub proof fn lemma_load_image_of(m: Machine, words: Seq<int>)
    requires
        m.ram.len() == RAM_SIZE,
        words.len() <= RAM_SIZE,
        forall|i: int| 0 <= i < words.len() ==> in_domain(#[trigger] words[i]),
    ensures
        image_is_valid(image_of(words)),
        image_cells(image_of(words)) == words.len(),
        m.loaded(image_of(words)).ram == words + m.ram.subrange(
            words.len() as int,
            RAM_SIZE as int,
        ),
{
    lemma_image_of_words(words);
}

/// A clock cycle keeps what it started with: a hundred cells, and every cell
/// and register in the value domain.
pub proof fn lemma_step_keeps_wf(m: Machine)
    requires
        m.wf(),
    ensures
        m.step() matches Ok((next, _)) ==> next.wf(),
{
    if let Ok((next, _)) = m.step() {
        assert(in_domain(next.accumulator));
    }
}

/// A run keeps what it started with, however it ends.
pub proof fn lemma_run_keeps_wf(m: Machine, cycles: nat)
    requires
        m.wf(),
    ensures
        m.run(cycles).0.wf(),
    decreases cycles,
{
    if cycles > 0 {
        lemma_step_keeps_wf(m);
        match m.step() {
            Err(_) => {},
            Ok((next, goes_on)) => {
                if goes_on {
                    lemma_run_keeps_wf(next, (cycles - 1) as nat);
                }
            },
        }
    }
}

/// Loading a valid memory image keeps the state well formed.
pub proof fn lemma_loaded_keeps_wf(m: Machine, data: Seq<u8>)
    requires
        m.wf(),
        image_is_valid(data),
    ensures
        m.loaded(data).wf(),
{
}

} // verus!
