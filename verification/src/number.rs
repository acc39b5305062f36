use vstd::prelude::*;

verus! {

/// The bit that carries the sign of a double.
pub const SIGN: u64 = 0x8000_0000_0000_0000u64;

/// The magnitude of positive infinity; every larger magnitude is not a number.
pub const INFINITY: u64 = 0x7FF0_0000_0000_0000u64;

/// A double-precision number as the language sees it: the IEEE-754 bit pattern,
/// by which numbers are compared, and the decimal text, by which they are shown.
/// The library never computes either from the other; whoever makes a `Number`
/// supplies both.
pub struct Number {
    pub bits: u64,
    pub text: String,
}

/// A `Number` with its text as a sequence of characters.
pub struct NumberV {
    pub bits: u64,
    pub text: Seq<char>,
}

impl View for Number {
    type V = NumberV;

    open spec fn view(&self) -> NumberV {
        NumberV { bits: self.bits, text: self.text@ }
    }
}

/// The bit pattern without its sign.
pub open spec fn magnitude(bits: u64) -> int {
    if bits >= SIGN {
        bits - SIGN
    } else {
        bits as int
    }
}

/// Whether the bit pattern is not a number.
pub open spec fn is_nan(bits: u64) -> bool {
    magnitude(bits) > INFINITY
}

/// Whether the bit pattern is zero of either sign.
pub open spec fn is_zero(bits: u64) -> bool {
    magnitude(bits) == 0
}

/// An integer that orders the bit patterns of numbers as the numbers themselves
/// are ordered; both zeros get 0.
pub open spec fn rank(bits: u64) -> int {
    if bits >= SIGN {
        -magnitude(bits)
    } else {
        magnitude(bits)
    }
}

/// IEEE equality: false when either side is not a number, and the two zeros are equal.
pub open spec fn equal(a: u64, b: u64) -> bool {
    !is_nan(a) && !is_nan(b) && rank(a) == rank(b)
}

/// IEEE `<`: false when either side is not a number.
pub open spec fn less(a: u64, b: u64) -> bool {
    !is_nan(a) && !is_nan(b) && rank(a) < rank(b)
}

/// IEEE `<=`: false when either side is not a number.
pub open spec fn less_equal(a: u64, b: u64) -> bool {
    !is_nan(a) && !is_nan(b) && rank(a) <= rank(b)
}

fn magnitude_of(bits: u64) -> (m: u64)
    ensures
        m == magnitude(bits),
        m < SIGN,
{
    if bits >= SIGN {
        bits - SIGN
    } else {
        bits
    }
}

fn nan_bits(bits: u64) -> (r: bool)
    ensures
        r == is_nan(bits),
{
    magnitude_of(bits) > INFINITY
}

/// Whether `rank(a) < rank(b)`, on patterns that are numbers or not.
fn rank_less(a: u64, b: u64) -> (r: bool)
    ensures
        r == (rank(a) < rank(b)),
{
    let ma = magnitude_of(a);
    let mb = magnitude_of(b);
    if a >= SIGN {
        if b >= SIGN {
            mb < ma
        } else {
            ma > 0 || mb > 0
        }
    } else {
        if b >= SIGN {
            false
        } else {
            ma < mb
        }
    }
}

impl Number {
    /// The number with the bit pattern `bits`, which is shown as `text`.
    pub fn new(bits: u64, text: String) -> (n: Number)
        ensures
            n.bits == bits,
            n.text == text,
    {
        Number { bits, text }
    }

    pub fn bits(&self) -> (b: u64)
        ensures
            b == self.bits,
    {
        self.bits
    }

    pub fn text(&self) -> (s: &str)
        ensures
            s@ == self.text@,
    {
        self.text.as_str()
    }

    pub fn is_nan(&self) -> (r: bool)
        ensures
            r == is_nan(self.bits),
    {
        nan_bits(self.bits)
    }

    pub fn is_zero(&self) -> (r: bool)
        ensures
            r == is_zero(self.bits),
    {
        magnitude_of(self.bits) == 0
    }

    pub fn equals(&self, other: &Number) -> (r: bool)
        ensures
            r == equal(self.bits, other.bits),
    {
        !nan_bits(self.bits) && !nan_bits(other.bits) && !rank_less(self.bits, other.bits)
            && !rank_less(other.bits, self.bits)
    }

    pub fn less(&self, other: &Number) -> (r: bool)
        ensures
            r == less(self.bits, other.bits),
    {
        !nan_bits(self.bits) && !nan_bits(other.bits) && rank_less(self.bits, other.bits)
    }

    pub fn less_equal(&self, other: &Number) -> (r: bool)
        ensures
            r == less_equal(self.bits, other.bits),
    {
        !nan_bits(self.bits) && !nan_bits(other.bits) && !rank_less(other.bits, self.bits)
    }
}

impl Clone for Number {
    fn clone(&self) -> (r: Number)
        ensures
            r == *self,
    {
        Number { bits: self.bits, text: self.text.clone() }
    }
}

} // verus!
