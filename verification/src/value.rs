use vstd::prelude::*;
use vstd::std_specs::cmp::PartialEqSpecImpl;
use vstd::std_specs::convert::FromSpecImpl;
use vstd::std_specs::convert::TryFromSpecImpl;
use crate::text::decimal_of;
use crate::text::decimal_string;

verus! {

/// Whether `i` lies in the value domain, the 1999 integers from -999 to 999.
pub open spec fn in_domain(i: int) -> bool {
    -999 <= i <= 999
}

/// The member of the value domain that differs from `i` by a multiple of 1999.
pub open spec fn wrap(i: int) -> int {
    (i + 999) % 1999 - 999
}

/// The result of one wrap: a value above the domain comes down by 1999, one
/// below it goes up by 1999, and a value inside it stays.
pub open spec fn wrap_once(i: int) -> int {
    if i > 999 {
        i - 1999
    } else if i < -999 {
        i + 1999
    } else {
        i
    }
}

/// The quotient of `v` by 100, rounded towards zero.
pub open spec fn first_digit_of(v: int) -> int {
    if v >= 0 {
        v / 100
    } else {
        -((-v) / 100)
    }
}

/// The remainder of `v` by 100, with the sign of `v`.
pub open spec fn last_two_digits_of(v: int) -> int {
    if v >= 0 {
        v % 100
    } else {
        -((-v) % 100)
    }
}

/// The word made of an opcode digit and a two-digit address.
pub open spec fn word_of_digits(first_digit: int, last_two_digits: int) -> int {
    first_digit * 100 + last_two_digits
}

/// The signed 16-bit integer whose big-endian form is `high`, `low`.
pub open spec fn word_of_bytes(high: u8, low: u8) -> int {
    let unsigned = high as int * 256 + low as int;
    if unsigned >= 32768 {
        unsigned - 65536
    } else {
        unsigned
    }
}

/// The big-endian two's complement form of `v`, for `v` that fits 16 bits.
pub open spec fn bytes_of_word(v: int) -> Seq<u8> {
    let unsigned = if v < 0 {
        v + 65536
    } else {
        v
    };
    seq![(unsigned / 256) as u8, (unsigned % 256) as u8]
}

/// The character whose code is the low eight bits of `v`.
pub open spec fn char_of(v: int) -> char {
    (v % 256) as char
}

/// Every sum or difference of two domain members wraps into the domain, and
/// wrapping leaves a domain member as it is.
pub proof fn lemma_wrap_in_domain(v: int)
    requires
        -1998 <= v <= 1998,
    ensures
        in_domain(wrap(v)),
        in_domain(v) ==> wrap(v) == v,
{
}

/// Wrapping is total: it lands in the domain for every integer, and moves its
/// argument by a multiple of 1999.
pub proof fn lemma_wrap_total(v: int)
    ensures
        in_domain(wrap(v)),
        (v - wrap(v)) % 1999 == 0,
{
}

/// Within one domain width of the domain, wrapping is a single step.
pub proof fn lemma_wrap_is_wrap_once(v: int)
    requires
        -2998 <= v <= 2998,
    ensures
        wrap(v) == wrap_once(v),
{
}

/// An opcode digit and an address put into one word come out of it again.
pub proof fn lemma_digits_round_trip(first_digit: int, last_two_digits: int)
    requires
        0 <= first_digit <= 9,
        0 <= last_two_digits <= 99,
    ensures
        in_domain(word_of_digits(first_digit, last_two_digits)),
        first_digit_of(word_of_digits(first_digit, last_two_digits)) == first_digit,
        last_two_digits_of(word_of_digits(first_digit, last_two_digits)) == last_two_digits,
{
}

/// A word splits into its digits without loss.
pub proof fn lemma_digits_recompose(v: int)
    ensures
        word_of_digits(first_digit_of(v), last_two_digits_of(v)) == v,
        in_domain(v) ==> -9 <= first_digit_of(v) <= 9 && -99 <= last_two_digits_of(v) <= 99,
{
}

/// The two bytes written for a 16-bit word read back as that word.
pub proof fn lemma_bytes_round_trip(v: int)
    requires
        -32768 <= v <= 32767,
    ensures
        bytes_of_word(v).len() == 2,
        word_of_bytes(bytes_of_word(v)[0], bytes_of_word(v)[1]) == v,
{
}

/// Why a pair of digits makes no word.
#[derive(Copy, Clone, Debug, PartialEq, Eq, Structural)]
pub enum DigitsError {
    /// The opcode digit is not one of 0 to 9.
    FirstDigitOutOfRange,
    /// The address is not one of 0 to 99.
    LastTwoDigitsOutOfRange,
}

/// The content of one memory cell or register: an integer from -999 to 999.
#[derive(Copy, Clone, Debug)]
pub struct Value(i16);

impl View for Value {
    type V = int;

    closed spec fn view(&self) -> int {
        self.0 as int
    }
}

impl Value {
    pub const MIN: i16 = -999;

    pub const MAX: i16 = 999;

    #[verifier::type_invariant]
    spec fn within_domain(self) -> bool {
        -999 <= self.0 <= 999
    }

    /// The value that holds `i`, for `i` in the domain.
    pub closed spec fn of(i: int) -> Value {
        Value(i as i16)
    }

    /// The value made of a domain member holds it.
    pub broadcast proof fn lemma_of_view(i: int)
        requires
            in_domain(i),
        ensures
            (#[trigger] Value::of(i))@ == i,
    {
    }

    /// Values are told apart by the integer they hold.
    pub broadcast proof fn lemma_view_injective(a: Value, b: Value)
        ensures
            #[trigger] a@ == #[trigger] b@ <==> a == b,
    {
    }

    pub fn new(value: i16) -> (r: Result<Value, ()>)
        ensures
            r is Ok <==> in_domain(value as int),
            r matches Ok(v) ==> v@ == value,
    {
        if value < -999 || value > 999 {
            Err(())
        } else {
            Ok(Value(value))
        }
    }

    /// The integer held, with its bounds.
    pub fn get(&self) -> (r: i16)
        ensures
            r == self@,
            in_domain(r as int),
    {
        proof {
            use_type_invariant(self);
        }
        self.0
    }

    /// Brings any 16-bit integer into the domain by adding or taking away 1999
    /// as often as needed; for a sum or difference of two values that is once.
    pub fn wrap_overflow(value: i16) -> (r: Value)
        ensures
            r@ == wrap(value as int),
            in_domain(r@),
            -2998 <= value <= 2998 ==> r@ == wrap_once(value as int),
    {
        let shifted: i32 = value as i32 + 999 + 33983;
        let reduced: i32 = shifted % 1999 - 999;
        Value(reduced as i16)
    }

    pub fn zero() -> (r: Value)
        ensures
            r@ == 0,
    {
        Value(0)
    }

    pub fn from_digits(first_digit: i16, last_two_digits: i16) -> (r: Result<Value, DigitsError>)
        ensures
            !(0 <= first_digit <= 9) ==> r == Err::<Value, DigitsError>(
                DigitsError::FirstDigitOutOfRange,
            ),
            0 <= first_digit <= 9 && !(0 <= last_two_digits <= 99) ==> r == Err::<
                Value,
                DigitsError,
            >(DigitsError::LastTwoDigitsOutOfRange),
            0 <= first_digit <= 9 && 0 <= last_two_digits <= 99 ==> r is Ok && r->Ok_0@
                == word_of_digits(first_digit as int, last_two_digits as int),
    {
        if first_digit < 0 || first_digit > 9 {
            return Err(DigitsError::FirstDigitOutOfRange);
        }
        if last_two_digits < 0 || last_two_digits > 99 {
            return Err(DigitsError::LastTwoDigitsOutOfRange);
        }
        Ok(Value(first_digit * 100 + last_two_digits))
    }

    pub fn first_digit(&self) -> (r: i16)
        ensures
            r == first_digit_of(self@),
            -9 <= r <= 9,
    {
        proof {
            use_type_invariant(self);
        }
        self.0 / 100
    }

    pub fn last_two_digits(&self) -> (r: i16)
        ensures
            r == last_two_digits_of(self@),
            -99 <= r <= 99,
    {
        self.0 % 100
    }

    pub fn is_zero(&self) -> (r: bool)
        ensures
            r == (self@ == 0),
    {
        self.0 == 0
    }

    pub fn is_negative(&self) -> (r: bool)
        ensures
            r == (self@ < 0),
    {
        self.0 < 0
    }

    pub fn is_positive(&self) -> (r: bool)
        ensures
            r == (self@ > 0),
    {
        self.0 > 0
    }

    pub fn is_non_negative(&self) -> (r: bool)
        ensures
            r == (self@ >= 0),
    {
        self.0 >= 0
    }

    /// The big-endian two's complement form, two bytes.
    pub fn to_be_bytes(&self) -> (r: [u8; 2])
        ensures
            r@ == bytes_of_word(self@),
            word_of_bytes(r[0], r[1]) == self@,
    {
        let unsigned: i32 = if self.0 < 0 {
            self.0 as i32 + 65536
        } else {
            self.0 as i32
        };
        let high: u8 = (unsigned / 256) as u8;
        let low: u8 = (unsigned % 256) as u8;
        let r: [u8; 2] = [high, low];
        r
    }

    /// Reads a value from its big-endian form; fails where the word read is
    /// outside the domain.
    pub fn from_be_bytes(bytes: [u8; 2]) -> (r: Result<Value, ()>)
        ensures
            r is Ok <==> in_domain(word_of_bytes(bytes[0], bytes[1])),
            r matches Ok(v) ==> v@ == word_of_bytes(bytes[0], bytes[1]),
    {
        let unsigned: i32 = bytes[0] as i32 * 256 + bytes[1] as i32;
        let word: i32 = if unsigned >= 32768 {
            unsigned - 65536
        } else {
            unsigned
        };
        if word < -999 || word > 999 {
            Err(())
        } else {
            Ok(Value(word as i16))
        }
    }

    /// The decimal text of the value.
    pub fn to_string(&self) -> (r: String)
        ensures
            r@ == decimal_of(self@),
    {
        decimal_string(self.0 as i64)
    }

    /// The character whose code is the low eight bits of the value.
    pub fn to_char(&self) -> (r: char)
        ensures
            r == char_of(self@),
    {
        proof {
            use_type_invariant(self);
        }
        let code: i32 = (self.0 as i32 + 1024) % 256;
        let byte: u8 = code as u8;
        byte as char
    }
}

/// The integers that a sequence of values holds.
pub open spec fn integers_of(values: Seq<Value>) -> Seq<int> {
    Seq::new(values.len(), |i: int| values[i]@)
}

impl PartialEq for Value {
    fn eq(&self, other: &Value) -> (r: bool) {
        self.0 == other.0
    }
}

impl PartialEqSpecImpl for Value {
    open spec fn obeys_eq_spec() -> bool {
        true
    }

    open spec fn eq_spec(&self, other: &Value) -> bool {
        self@ == other@
    }
}

impl PartialEq<i16> for Value {
    fn eq(&self, other: &i16) -> (r: bool) {
        self.0 == *other
    }
}

impl PartialEqSpecImpl<i16> for Value {
    open spec fn obeys_eq_spec() -> bool {
        true
    }

    open spec fn eq_spec(&self, other: &i16) -> bool {
        self@ == *other
    }
}

impl From<Value> for i16 {
    fn from(value: Value) -> (r: i16)
        ensures
            r == value@,
            in_domain(r as int),
    {
        value.get()
    }
}

impl FromSpecImpl<Value> for i16 {
    open spec fn obeys_from_spec() -> bool {
        true
    }

    open spec fn from_spec(value: Value) -> i16 {
        value@ as i16
    }
}

impl From<Value> for char {
    fn from(value: Value) -> (r: char) {
        value.to_char()
    }
}

impl FromSpecImpl<Value> for char {
    open spec fn obeys_from_spec() -> bool {
        true
    }

    open spec fn from_spec(value: Value) -> char {
        char_of(value@)
    }
}

impl From<i8> for Value {
    fn from(value: i8) -> (r: Value)
        ensures
            r@ == value,
    {
        Value(value as i16)
    }
}

impl FromSpecImpl<i8> for Value {
    open spec fn obeys_from_spec() -> bool {
        true
    }

    open spec fn from_spec(value: i8) -> Value {
        Value::of(value as int)
    }
}

impl TryFrom<i16> for Value {
    type Error = &'static str;

    fn try_from(value: i16) -> (r: Result<Value, &'static str>)
        ensures
            r is Ok <==> in_domain(value as int),
            r matches Ok(v) ==> v@ == value,
    {
        if value < -999 || value > 999 {
            Err("Value out of range")
        } else {
            Ok(Value(value))
        }
    }
}

impl TryFromSpecImpl<i16> for Value {
    open spec fn obeys_try_from_spec() -> bool {
        true
    }

    open spec fn try_from_spec(value: i16) -> Result<Value, &'static str> {
        if in_domain(value as int) {
            Ok(Value::of(value as int))
        } else {
            Err("Value out of range")
        }
    }
}

impl core::ops::AddAssign for Value {
    /// Adds `other`, wrapping the sum into the domain.
    fn add_assign(&mut self, other: Value)
        ensures
            final(self)@ == wrap(old(self)@ + other@),
            final(self)@ == wrap_once(old(self)@ + other@),
    {
        proof {
            use_type_invariant(&*self);
            use_type_invariant(&other);
        }
        *self = Value::wrap_overflow(self.0 + other.0);
    }
}

impl core::ops::SubAssign for Value {
    /// Takes `other` away, wrapping the difference into the domain.
    fn sub_assign(&mut self, other: Value)
        ensures
            final(self)@ == wrap(old(self)@ - other@),
            final(self)@ == wrap_once(old(self)@ - other@),
    {
        proof {
            use_type_invariant(&*self);
            use_type_invariant(&other);
        }
        *self = Value::wrap_overflow(self.0 - other.0);
    }
}

} // verus!
