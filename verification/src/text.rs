use vstd::prelude::*;

verus! {

/// `String::push` of the standard library: the text grows by the one character
/// given, at its end.
pub assume_specification[ String::push ](s: &mut String, c: char)
    ensures
        final(s)@ == old(s)@.push(c),
;

/// The character that stands for the decimal digit `d`.
pub open spec fn digit_char(d: int) -> char {
    (d + 48) as char
}

/// The decimal text of a natural number, without leading zeros.
pub open spec fn decimal_of_nat(n: nat) -> Seq<char>
    decreases n,
{
    if n < 10 {
        seq![digit_char(n as int)]
    } else {
        decimal_of_nat(n / 10).push(digit_char((n % 10) as int))
    }
}

/// The decimal text of an integer: a minus sign for a negative one, then the
/// digits of its magnitude.
pub open spec fn decimal_of(v: int) -> Seq<char> {
    if v < 0 {
        seq!['-'] + decimal_of_nat((-v) as nat)
    } else {
        decimal_of_nat(v as nat)
    }
}

/// Whether `c` is one of the ten decimal digits.
pub open spec fn is_digit(c: char) -> bool {
    '0' <= c <= '9'
}

/// The decimal text of a natural number is one digit or more, and digits only.
pub proof fn lemma_decimal_of_nat_digits(n: nat)
    ensures
        decimal_of_nat(n).len() >= 1,
        forall|i: int| 0 <= i < decimal_of_nat(n).len() ==> is_digit(#[trigger] decimal_of_nat(n)[i]),
    decreases n,
{
    if n >= 10 {
        lemma_decimal_of_nat_digits(n / 10);
    }
}

/// Whether `text` holds no line feed.
pub open spec fn is_one_line(text: Seq<char>) -> bool {
    forall|i: int| 0 <= i < text.len() ==> #[trigger] text[i] != '\n'
}

/// Whether `text` holds no white space.
pub open spec fn has_no_whitespace(text: Seq<char>) -> bool {
    forall|i: int| 0 <= i < text.len() ==> !is_whitespace(#[trigger] text[i])
}

/// The decimal text of an integer ends in a digit, and holds neither a line
/// feed nor other white space.
pub proof fn lemma_decimal_of_shape(v: int)
    ensures
        decimal_of(v).len() >= 1,
        is_digit(decimal_of(v).last()),
        is_one_line(decimal_of(v)),
        has_no_whitespace(decimal_of(v)),
{
    if v < 0 {
        lemma_decimal_of_nat_digits((-v) as nat);
    } else {
        lemma_decimal_of_nat_digits(v as nat);
    }
}

/// Writes the decimal digits of `n` at the end of `s`.
pub fn push_decimal(s: &mut String, n: u64)
    ensures
        final(s)@ == old(s)@ + decimal_of_nat(n as nat),
    decreases n,
{
    if n >= 10 {
        push_decimal(s, n / 10);
    }
    let digit: u8 = (n % 10) as u8;
    let c: char = (digit + 48) as char;
    s.push(c);
}

/// The decimal text of `v`.
pub fn decimal_string(v: i64) -> (r: String)
    ensures
        r@ == decimal_of(v as int),
{
    let mut s = String::new();
    if v < 0 {
        s.push('-');
        let magnitude: u64 = (-(v as i128)) as u64;
        push_decimal(&mut s, magnitude);
    } else {
        push_decimal(&mut s, v as u64);
    }
    s
}

/// Whether `c` is white space: one of the characters U+0009 to U+000D,
/// U+0020, U+0085, U+00A0, U+1680, U+2000 to U+200A, U+2028, U+2029, U+202F,
/// U+205F and U+3000.
pub open spec fn is_whitespace(c: char) -> bool {
    let code = c as int;
    ||| 0x09 <= code <= 0x0d
    ||| code == 0x20
    ||| code == 0x85
    ||| code == 0xa0
    ||| code == 0x1680
    ||| 0x2000 <= code <= 0x200a
    ||| code == 0x2028
    ||| code == 0x2029
    ||| code == 0x202f
    ||| code == 0x205f
    ||| code == 0x3000
}

/// The pieces of `text` between its line feeds: one more piece than there are
/// line feeds, and an empty piece wherever nothing stands between two of them,
/// before the first or after the last.
pub open spec fn pieces_of(text: Seq<char>) -> Seq<Seq<char>>
    decreases text.len(),
{
    if text.len() == 0 {
        seq![Seq::empty()]
    } else {
        let before = pieces_of(text.drop_last());
        if text.last() == '\n' {
            before.push(Seq::empty())
        } else {
            before.drop_last().push(before.last().push(text.last()))
        }
    }
}

/// The lines of `text`: its pieces between line feeds, but for the piece after
/// the last line feed where that piece is empty. The line feeds are no part of
/// the lines.
pub open spec fn lines_of(text: Seq<char>) -> Seq<Seq<char>> {
    let pieces = pieces_of(text);
    if pieces.last().len() == 0 {
        pieces.drop_last()
    } else {
        pieces
    }
}

/// The words of `text`: its longest runs of characters that are not white
/// space, in order.
pub open spec fn words_of(text: Seq<char>) -> Seq<Seq<char>>
    decreases text.len(),
{
    if text.len() == 0 {
        Seq::empty()
    } else {
        let before = words_of(text.drop_last());
        if is_whitespace(text.last()) {
            before
        } else if text.len() >= 2 && !is_whitespace(text[text.len() - 2]) {
            before.drop_last().push(before.last().push(text.last()))
        } else {
            before.push(seq![text.last()])
        }
    }
}

/// The number that a run of decimal digits stands for.
pub open spec fn number_of(digits: Seq<char>) -> nat
    decreases digits.len(),
{
    if digits.len() == 0 {
        0
    } else {
        (number_of(digits.drop_last()) * 10 + (digits.last() as int - 48)) as nat
    }
}

/// Whether `text` holds decimal digits only.
pub open spec fn all_digits(text: Seq<char>) -> bool {
    forall|i: int| 0 <= i < text.len() ==> is_digit(#[trigger] text[i])
}

/// The integer that `text` stands for: one decimal digit or more, behind at
/// most one sign, `+` or `-`. Other text stands for none.
pub open spec fn integer_of(text: Seq<char>) -> Option<int> {
    if text.len() > 0 && (text[0] == '+' || text[0] == '-') {
        let digits = text.subrange(1, text.len() as int);
        if digits.len() > 0 && all_digits(digits) {
            if text[0] == '-' {
                Some(-(number_of(digits) as int))
            } else {
                Some(number_of(digits) as int)
            }
        } else {
            None
        }
    } else if text.len() > 0 && all_digits(text) {
        Some(number_of(text) as int)
    } else {
        None
    }
}

/// The 16-bit integer that `text` stands for, where the integer it stands for
/// fits 16 bits.
pub open spec fn i16_of(text: Seq<char>) -> Option<i16> {
    match integer_of(text) {
        Some(v) => if -32768 <= v <= 32767 {
            Some(v as i16)
        } else {
            None
        },
        None => None,
    }
}

/// A run of digits with one more digit stands for no smaller a number.
pub proof fn lemma_number_of_grows(digits: Seq<char>, k: int)
    requires
        all_digits(digits),
        0 <= k <= digits.len(),
    ensures
        number_of(digits.take(k)) <= number_of(digits),
    decreases digits.len() - k,
{
    if k < digits.len() {
        lemma_number_of_grows(digits, k + 1);
        assert(digits.take(k + 1).drop_last() =~= digits.take(k));
    } else {
        assert(digits.take(k) =~= digits);
    }
}

/// A run of digits in front of one more digit counts ten times.
pub proof fn lemma_number_of_push(digits: Seq<char>, c: char)
    requires
        is_digit(c),
    ensures
        number_of(digits.push(c)) == number_of(digits) * 10 + (c as int - 48),
{
    assert(digits.push(c).drop_last() =~= digits);
}

/// The decimal text of a natural number stands for that number.
pub proof fn lemma_number_of_decimal(n: nat)
    ensures
        all_digits(decimal_of_nat(n)),
        number_of(decimal_of_nat(n)) == n,
    decreases n,
{
    lemma_decimal_of_nat_digits(n);
    if n < 10 {
        lemma_number_of_push(Seq::empty(), digit_char(n as int));
    } else {
        lemma_number_of_decimal(n / 10);
        lemma_number_of_push(decimal_of_nat(n / 10), digit_char((n % 10) as int));
    }
}

/// The decimal text of an integer stands for that integer.
pub proof fn lemma_integer_of_decimal(v: int)
    ensures
        integer_of(decimal_of(v)) == Some(v),
{
    let text = decimal_of(v);
    if v < 0 {
        let digits = decimal_of_nat((-v) as nat);
        lemma_number_of_decimal((-v) as nat);
        lemma_decimal_of_nat_digits((-v) as nat);
        assert(text.subrange(1, text.len() as int) =~= digits);
    } else {
        lemma_number_of_decimal(v as nat);
        lemma_decimal_of_nat_digits(v as nat);
    }
}

/// The pieces put one behind the other, with nothing between them.
pub open spec fn joined(pieces: Seq<Seq<char>>) -> Seq<char>
    decreases pieces.len(),
{
    if pieces.len() == 0 {
        Seq::empty()
    } else {
        joined(pieces.drop_last()) + pieces.last()
    }
}

/// The pieces put one behind the other, with a line feed between each two.
pub open spec fn joined_by_line_feeds(pieces: Seq<Seq<char>>) -> Seq<char>
    decreases pieces.len(),
{
    if pieces.len() == 0 {
        Seq::empty()
    } else if pieces.len() == 1 {
        pieces[0]
    } else {
        joined_by_line_feeds(pieces.drop_last()) + seq!['\n'] + pieces.last()
    }
}

/// The text but for its white space.
pub open spec fn without_whitespace(text: Seq<char>) -> Seq<char>
    decreases text.len(),
{
    if text.len() == 0 {
        Seq::empty()
    } else if is_whitespace(text.last()) {
        without_whitespace(text.drop_last())
    } else {
        without_whitespace(text.drop_last()).push(text.last())
    }
}

/// The pieces of a text, with the line feeds put back between them, are the
/// text.
pub proof fn lemma_pieces_keep_the_text(text: Seq<char>)
    ensures
        pieces_of(text).len() >= 1,
        joined_by_line_feeds(pieces_of(text)) == text,
    decreases text.len(),
{
    if text.len() > 0 {
        lemma_pieces_keep_the_text(text.drop_last());
        let before = pieces_of(text.drop_last());
        let pieces = pieces_of(text);
        if text.last() == '\n' {
            assert(pieces.drop_last() =~= before);
        } else if before.len() > 1 {
            assert(pieces.drop_last() =~= before.drop_last());
        }
        assert(text.drop_last().push(text.last()) =~= text);
    }
}

/// The words hold the text: every character of it but the white space, in
/// order.
pub proof fn lemma_words_keep_the_text(text: Seq<char>)
    ensures
        joined(words_of(text)) == without_whitespace(text),
        text.len() > 0 && !is_whitespace(text.last()) ==> words_of(text).len() >= 1,
    decreases text.len(),
{
    if text.len() > 0 {
        lemma_words_keep_the_text(text.drop_last());
        let before = words_of(text.drop_last());
        let words = words_of(text);
        if !is_whitespace(text.last()) {
            if text.len() >= 2 && !is_whitespace(text[text.len() - 2]) {
                assert(words.drop_last() =~= before.drop_last());
            } else {
                assert(words.drop_last() =~= before);
            }
        }
    }
}

/// No line holds a line feed.
pub proof fn lemma_lines_are_one_line(text: Seq<char>)
    ensures
        forall|i: int| 0 <= i < pieces_of(text).len() ==> is_one_line(#[trigger] pieces_of(text)[i]),
        forall|i: int| 0 <= i < lines_of(text).len() ==> is_one_line(#[trigger] lines_of(text)[i]),
        pieces_of(text).len() >= 1,
    decreases text.len(),
{
    if text.len() > 0 {
        lemma_lines_are_one_line(text.drop_last());
    }
}

/// No word is empty, and no word holds white space.
pub proof fn lemma_words_are_words(text: Seq<char>)
    ensures
        forall|i: int|
            0 <= i < words_of(text).len() ==> (#[trigger] words_of(text)[i]).len() >= 1
                && has_no_whitespace(words_of(text)[i]),
        text.len() > 0 && !is_whitespace(text.last()) ==> words_of(text).len() >= 1,
    decreases text.len(),
{
    if text.len() > 0 {
        lemma_words_are_words(text.drop_last());
        assert(words_of(text.drop_last()).len() <= words_of(text).len());
    }
}

/// A text without white space that is not empty is one word.
pub proof fn lemma_words_of_one_word(text: Seq<char>)
    requires
        text.len() >= 1,
        has_no_whitespace(text),
    ensures
        words_of(text) == seq![text],
    decreases text.len(),
{
    let before = text.drop_last();
    assert(before.push(text.last()) =~= text);
    if text.len() == 1 {
        assert(words_of(before) =~= Seq::<Seq<char>>::empty());
        assert(seq![text.last()] =~= text);
    } else {
        lemma_words_of_one_word(before);
    }
}

/// The code of `c`.
pub fn code_of(c: char) -> (r: u32)
    ensures
        r == c as int,
{
    c as u32
}

pub fn is_whitespace_char(c: char) -> (r: bool)
    ensures
        r == is_whitespace(c),
{
    let code: u32 = code_of(c);
    (0x09 <= code && code <= 0x0d) || code == 0x20 || code == 0x85 || code == 0xa0 || code
        == 0x1680 || (0x2000 <= code && code <= 0x200a) || code == 0x2028 || code == 0x2029 || code
        == 0x202f || code == 0x205f || code == 0x3000
}

/// The characters of `text`, in order.
pub fn chars_of(text: &str) -> (r: Vec<char>)
    ensures
        r@ == text@,
{
    let mut r: Vec<char> = Vec::new();
    for c in it: text.chars()
        invariant
            r@ == it.seq().take(it.index() as int),
    {
        r.push(c);
    }
    r
}

/// The lines of `text`.
pub fn split_lines(text: &str) -> (r: Vec<String>)
    ensures
        r.deep_view() == lines_of(text@),
{
    let mut lines: Vec<String> = Vec::new();
    let mut current = String::new();
    for c in it: text.chars()
        invariant
            it.seq() == text@,
            lines.deep_view().push(current@) == pieces_of(text@.take(it.index() as int)),
    {
        assert(text@.take(it.index() + 1).drop_last() =~= text@.take(it.index() as int));
        if c == '\n' {
            lines.push(current);
            current = String::new();
        } else {
            current.push(c);
        }
    }
    assert(text@.take(text@.len() as int) =~= text@);
    if current.as_str().unicode_len() != 0 {
        lines.push(current);
    }
    lines
}

/// The words of `text`.
pub fn split_whitespace(text: &str) -> (r: Vec<String>)
    ensures
        r.deep_view() == words_of(text@),
{
    let mut words: Vec<String> = Vec::new();
    let mut current = String::new();
    let mut in_word = false;
    for c in it: text.chars()
        invariant
            it.seq() == text@,
            in_word <==> it.index() > 0 && !is_whitespace(text@[it.index() - 1]),
            in_word ==> words.deep_view().push(current@) == words_of(
                text@.take(it.index() as int),
            ),
            !in_word ==> current@.len() == 0 && words.deep_view() == words_of(
                text@.take(it.index() as int),
            ),
    {
        assert(text@.take(it.index() + 1).drop_last() =~= text@.take(it.index() as int));
        if is_whitespace_char(c) {
            if in_word {
                words.push(current);
                current = String::new();
            }
            in_word = false;
        } else {
            current.push(c);
            if !in_word {
                assert(current@ =~= seq![c]);
            }
            in_word = true;
        }
    }
    assert(text@.take(text@.len() as int) =~= text@);
    if in_word {
        words.push(current);
    }
    words
}

/// Reads `text` as a 16-bit integer in decimal form.
pub fn parse_i16(text: &str) -> (r: Option<i16>)
    ensures
        r == i16_of(text@),
{
    let chars = chars_of(text);
    let n: usize = chars.len();
    if n == 0 {
        return None;
    }
    let negative: bool = chars[0] == '-';
    let start: usize = if chars[0] == '+' || chars[0] == '-' {
        1
    } else {
        0
    };
    if start == n {
        return None;
    }
    let ghost digits = text@.subrange(start as int, n as int);
    let mut magnitude: u32 = 0;
    let mut too_large: bool = false;
    let mut i: usize = start;
    while i < n
        invariant
            start <= i <= n,
            start == 0 ==> digits == text@,
            start == 1 <==> text@[0] == '+' || text@[0] == '-',
            n == chars@.len(),
            chars@ == text@,
            digits == text@.subrange(start as int, n as int),
            all_digits(digits.take(i - start)),
            magnitude <= 32768,
            !too_large ==> magnitude == number_of(digits.take(i - start)),
            too_large ==> number_of(digits.take(i - start)) > 32768,
        decreases n - i,
    {
        let c: char = chars[i];
        let code: u32 = code_of(c);
        if code < 48 || code > 57 {
            assert(!is_digit(digits[i - start]));
            return None;
        }
        assert(digits.take(i - start + 1).drop_last() =~= digits.take(i - start));
        if !too_large {
            magnitude = magnitude * 10 + (code - 48);
            if magnitude > 32768 {
                too_large = true;
                magnitude = 0;
            }
        }
        i += 1;
    }
    assert(digits.take(n - start) =~= digits);
    if too_large {
        None
    } else if negative {
        Some((-(magnitude as i32)) as i16)
    } else if magnitude <= 32767 {
        Some(magnitude as i16)
    } else {
        None
    }
}

} // verus!
