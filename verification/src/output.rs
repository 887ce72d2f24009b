use vstd::prelude::*;
use crate::text::chars_of;
use crate::text::decimal_of;
use crate::text::is_one_line;
use crate::text::joined;
use crate::text::lemma_decimal_of_shape;
use crate::value::Value;

verus! {

/// The rows after one more character `c`, at row width `width`: a line break
/// opens an empty row; any other character goes to the last row, or opens a
/// row of its own where the last one is full.
pub open spec fn rows_after(rows: Seq<Seq<char>>, c: char, width: int) -> Seq<Seq<char>> {
    if c == '\n' {
        rows.push(Seq::empty())
    } else if rows.last().len() >= width {
        rows.push(seq![c])
    } else {
        rows.drop_last().push(rows.last().push(c))
    }
}

/// The rows that `text` fills at row width `width`. There is always a first
/// row, empty where the text is.
pub open spec fn rows_of(text: Seq<char>, width: int) -> Seq<Seq<char>>
    decreases text.len(),
{
    if text.len() == 0 {
        seq![Seq::empty()]
    } else {
        rows_after(rows_of(text.drop_last(), width), text.last(), width)
    }
}

/// The text that stands for `value` when it is written after what came
/// before: its decimal form, behind a line break where a number came last.
pub open spec fn number_text(after_number: bool, value: int) -> Seq<char> {
    if after_number {
        seq!['\n'] + decimal_of(value)
    } else {
        decimal_of(value)
    }
}

/// The text that stands for `values` written one after the other, with
/// nothing written before or between them.
pub open spec fn numbers_text(values: Seq<int>) -> Seq<char>
    decreases values.len(),
{
    if values.len() == 0 {
        Seq::empty()
    } else {
        numbers_text(values.drop_last()) + number_text(values.len() > 1, values.last())
    }
}

/// No row is longer than the width, whatever the text, and no row holds a
/// line break.
pub proof fn lemma_rows_fit(text: Seq<char>, width: int)
    requires
        width >= 1,
    ensures
        rows_of(text, width).len() >= 1,
        forall|i: int|
            0 <= i < rows_of(text, width).len() ==> (#[trigger] rows_of(text, width)[i]).len()
                <= width && is_one_line(rows_of(text, width)[i]),
    decreases text.len(),
{
    if text.len() > 0 {
        lemma_rows_fit(text.drop_last(), width);
    }
}

/// The text but for its line breaks.
pub open spec fn without_line_breaks(text: Seq<char>) -> Seq<char>
    decreases text.len(),
{
    if text.len() == 0 {
        Seq::empty()
    } else if text.last() == '\n' {
        without_line_breaks(text.drop_last())
    } else {
        without_line_breaks(text.drop_last()).push(text.last())
    }
}

/// The rows hold the text: every character of it but the line breaks, in
/// order, at every width.
pub proof fn lemma_rows_keep_the_text(text: Seq<char>, width: int)
    ensures
        rows_of(text, width).len() >= 1,
        joined(rows_of(text, width)) == without_line_breaks(text),
    decreases text.len(),
{
    if text.len() == 0 {
        assert(joined(rows_of(text, width).drop_last()) =~= Seq::<char>::empty());
    } else {
        lemma_rows_keep_the_text(text.drop_last(), width);
        let before = rows_of(text.drop_last(), width);
        let rows = rows_of(text, width);
        if text.last() == '\n' || before.last().len() >= width {
            assert(rows.drop_last() =~= before);
        } else {
            assert(rows.drop_last() =~= before.drop_last());
        }
    }
}

/// A text without line break that fits the width fills one row.
pub proof fn lemma_rows_of_one_line(line: Seq<char>, width: int)
    requires
        is_one_line(line),
        line.len() <= width,
    ensures
        rows_of(line, width) == seq![line],
    decreases line.len(),
{
    if line.len() > 0 {
        lemma_rows_of_one_line(line.drop_last(), width);
        assert(line.drop_last().push(line.last()) =~= line);
    } else {
        assert(line =~= Seq::<char>::empty());
    }
}

/// Behind a line break, a text without line break that fits the width fills
/// one more row, and leaves the rows before it as they were.
pub proof fn lemma_rows_after_line_break(text: Seq<char>, line: Seq<char>, width: int)
    requires
        is_one_line(line),
        line.len() <= width,
    ensures
        rows_of(text + seq!['\n'] + line, width) == rows_of(text, width).push(line),
    decreases line.len(),
{
    let whole = text + seq!['\n'] + line;
    if line.len() == 0 {
        assert(whole.drop_last() =~= text);
        assert(line =~= Seq::<char>::empty());
    } else {
        lemma_rows_after_line_break(text, line.drop_last(), width);
        assert(whole.drop_last() =~= text + seq!['\n'] + line.drop_last());
        assert(line.drop_last().push(line.last()) =~= line);
    }
}

/// Numbers written one after the other stand in a row each, at every width
/// that takes the longest of them.
pub proof fn lemma_numbers_fill_a_row_each(values: Seq<int>, width: int)
    requires
        values.len() >= 1,
        forall|i: int| 0 <= i < values.len() ==> (#[trigger] decimal_of(values[i])).len() <= width,
    ensures
        rows_of(numbers_text(values), width) == Seq::new(
            values.len(),
            |i: int| decimal_of(values[i]),
        ),
    decreases values.len(),
{
    let last = decimal_of(values.last());
    lemma_decimal_of_shape(values.last());
    if values.len() == 1 {
        assert(numbers_text(values.drop_last()) =~= Seq::<char>::empty());
        lemma_rows_of_one_line(last, width);
    } else {
        let before = values.drop_last();
        lemma_numbers_fill_a_row_each(before, width);
        assert(numbers_text(values) =~= numbers_text(before) + seq!['\n'] + last);
        lemma_rows_after_line_break(numbers_text(before), last, width);
    }
}

pub struct OutputConfig {
    /// Whether each piece of output is to be shown as soon as it is written.
    pub immediately_print_output: bool,
}

/// What a program has written so far.
pub struct Output {
    buffer: String,
    last_was_number: bool,
    config: OutputConfig,
}

impl View for Output {
    type V = Seq<char>;

    closed spec fn view(&self) -> Seq<char> {
        self.buffer@
    }
}

impl Output {
    /// Whether the last thing written was a number.
    pub closed spec fn after_number(&self) -> bool {
        self.last_was_number
    }

    /// Whether the owner asked for each piece to be shown as it is written.
    pub closed spec fn immediate(&self) -> bool {
        self.config.immediately_print_output
    }

    /// An output with nothing written.
    pub fn new(config: OutputConfig) -> (r: Output)
        ensures
            r@ == Seq::<char>::empty(),
            !r.after_number(),
            r.immediate() == config.immediately_print_output,
    {
        Output { buffer: String::new(), last_was_number: false, config }
    }

    pub fn immediately_print_output(&self) -> (r: bool)
        ensures
            r == self.immediate(),
    {
        self.config.immediately_print_output
    }

    /// Writes one character.
    pub fn push_char(&mut self, character: char)
        ensures
            final(self)@ == old(self)@.push(character),
            !final(self).after_number(),
            final(self).immediate() == old(self).immediate(),
    {
        self.buffer.push(character);
        self.last_was_number = false;
    }

    /// Writes a number in decimal form, on a line of its own where the last
    /// thing written was a number too.
    pub fn push_int(&mut self, integer: Value)
        ensures
            final(self)@ == old(self)@ + number_text(old(self).after_number(), integer@),
            final(self).after_number(),
            final(self).immediate() == old(self).immediate(),
    {
        if self.last_was_number {
            self.buffer.push('\n');
        }
        let digits = integer.to_string();
        self.buffer.append(digits.as_str());
        self.last_was_number = true;
    }

    /// The characters written so far.
    pub fn chars(&self) -> (r: Vec<char>)
        ensures
            r@ == self@,
    {
        chars_of(self.buffer.as_str())
    }

    /// The rows that the text fills where no row is longer than
    /// `max_line_length`.
    pub fn split_into_lines(&self, max_line_length: isize) -> (r: Vec<String>)
        ensures
            r.deep_view() == rows_of(self@, max_line_length as int),
    {
        let mut lines: Vec<String> = Vec::new();
        let mut current_row = String::new();
        let mut row_length: isize = 0;
        for c in it: self.buffer.as_str().chars()
            invariant
                it.seq() == self@,
                row_length == current_row@.len(),
                row_length <= 1 || row_length <= max_line_length,
                lines.deep_view().push(current_row@) == rows_of(
                    self@.take(it.index() as int),
                    max_line_length as int,
                ),
        {
            assert(self@.take(it.index() + 1).drop_last() =~= self@.take(it.index() as int));
            if c == '\n' {
                lines.push(current_row);
                current_row = String::new();
                row_length = 0;
            } else {
                if row_length >= max_line_length {
                    lines.push(current_row);
                    current_row = String::new();
                    row_length = 0;
                }
                current_row.push(c);
                row_length += 1;
            }
        }
        lines.push(current_row);
        assert(self@.take(self@.len() as int) =~= self@);
        lines
    }

    /// Everything written so far.
    pub fn read_all(&self) -> (r: String)
        ensures
            r@ == self@,
    {
        self.buffer.clone()
    }
}

} // verus!
