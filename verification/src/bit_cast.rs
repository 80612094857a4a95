use vstd::prelude::*;
use vstd::arithmetic::power2::{pow2, lemma2_to64};

verus! {

/// Every scalar that travels the wire converts losslessly to and from a
/// 64-bit unsigned word: the word is the value's raw bit pattern, so signed
/// values keep their two's-complement bits and booleans map to zero and one.
/// The word is the common currency of the varint and fixed-width codecs.
pub trait BitCast: Sized {
    /// How many bytes the type occupies in a fixed-width encoding. The
    /// default stands for implementations outside the verified world, which
    /// override the executable methods only; every implementation verified
    /// here overrides it.
    open spec fn spec_width() -> nat {
        1
    }

    /// The 64-bit word that stands for this value; defaulted for the same
    /// reason as `spec_width`.
    open spec fn to_word(&self) -> u64 {
        0
    }

    /// The value a 64-bit word stands for; words wider than the type are
    /// truncated to its width. Defaulted for the same reason as
    /// `spec_width`.
    open spec fn of_word(w: u64) -> Self {
        arbitrary()
    }

    /// How many bytes the type occupies in a fixed-width encoding: between
    /// one and eight of them.
    fn width() -> (n: usize)
        ensures
            n == Self::spec_width(),
            1 <= n <= 8,
    ;

    /// Convert the value to its 64-bit word. The word fits the type's
    /// width, and reading it back yields the value: the bit-cast law every
    /// verified implementation proves.
    fn to_u64(&self) -> (r: u64)
        ensures
            r == self.to_word(),
            r < pow2(8 * Self::spec_width()),
            Self::of_word(self.to_word()) == *self,
    ;

    /// Convert a 64-bit word back to a value.
    fn from_u64(value: u64) -> (r: Self)
        ensures
            r == Self::of_word(value),
    ;
}

impl BitCast for u64 {
    open spec fn spec_width() -> nat {
        8
    }

    open spec fn to_word(&self) -> u64 {
        *self
    }

    open spec fn of_word(w: u64) -> Self {
        w
    }

    fn width() -> usize {
        8
    }

    fn to_u64(&self) -> (r: u64) {
        proof {
            lemma2_to64();
        }
        *self
    }

    fn from_u64(value: u64) -> Self {
        value
    }
}

impl BitCast for u32 {
    open spec fn spec_width() -> nat {
        4
    }

    open spec fn to_word(&self) -> u64 {
        *self as u64
    }

    open spec fn of_word(w: u64) -> Self {
        (w % 0x1_0000_0000) as u32
    }

    fn width() -> usize {
        4
    }

    fn to_u64(&self) -> (r: u64) {
        proof {
            lemma2_to64();
        }
        *self as u64
    }

    fn from_u64(value: u64) -> Self {
        (value % 0x1_0000_0000) as u32
    }
}

impl BitCast for u16 {
    open spec fn spec_width() -> nat {
        2
    }

    open spec fn to_word(&self) -> u64 {
        *self as u64
    }

    open spec fn of_word(w: u64) -> Self {
        (w % 0x1_0000) as u16
    }

    fn width() -> usize {
        2
    }

    fn to_u64(&self) -> (r: u64) {
        proof {
            lemma2_to64();
        }
        *self as u64
    }

    fn from_u64(value: u64) -> Self {
        (value % 0x1_0000) as u16
    }
}

impl BitCast for u8 {
    open spec fn spec_width() -> nat {
        1
    }

    open spec fn to_word(&self) -> u64 {
        *self as u64
    }

    open spec fn of_word(w: u64) -> Self {
        (w % 0x100) as u8
    }

    fn width() -> usize {
        1
    }

    fn to_u64(&self) -> (r: u64) {
        proof {
            lemma2_to64();
        }
        *self as u64
    }

    fn from_u64(value: u64) -> Self {
        (value % 0x100) as u8
    }
}

impl BitCast for i64 {
    open spec fn spec_width() -> nat {
        8
    }

    open spec fn to_word(&self) -> u64 {
        if *self >= 0 {
            *self as u64
        } else {
            (*self + 0x1_0000_0000_0000_0000) as u64
        }
    }

    open spec fn of_word(w: u64) -> Self {
        if w < 0x8000_0000_0000_0000 {
            w as i64
        } else {
            (w - 0x1_0000_0000_0000_0000) as i64
        }
    }

    fn width() -> usize {
        8
    }

    fn to_u64(&self) -> (r: u64) {
        proof {
            lemma2_to64();
        }
        if *self >= 0 {
            *self as u64
        } else {
            ((*self as i128) + 0x1_0000_0000_0000_0000) as u64
        }
    }

    fn from_u64(value: u64) -> Self {
        if value < 0x8000_0000_0000_0000 {
            value as i64
        } else {
            ((value as i128) - 0x1_0000_0000_0000_0000) as i64
        }
    }
}

impl BitCast for i32 {
    open spec fn spec_width() -> nat {
        4
    }

    open spec fn to_word(&self) -> u64 {
        if *self >= 0 {
            *self as u64
        } else {
            (*self + 0x1_0000_0000) as u64
        }
    }

    open spec fn of_word(w: u64) -> Self {
        if w % 0x1_0000_0000 < 0x8000_0000 {
            (w % 0x1_0000_0000) as i32
        } else {
            (w % 0x1_0000_0000 - 0x1_0000_0000) as i32
        }
    }

    fn width() -> usize {
        4
    }

    fn to_u64(&self) -> (r: u64) {
        proof {
            lemma2_to64();
        }
        if *self >= 0 {
            *self as u64
        } else {
            ((*self as i64) + 0x1_0000_0000) as u64
        }
    }

    fn from_u64(value: u64) -> Self {
        let low = value % 0x1_0000_0000;
        if low < 0x8000_0000 {
            low as i32
        } else {
            ((low as i64) - 0x1_0000_0000) as i32
        }
    }
}

impl BitCast for i16 {
    open spec fn spec_width() -> nat {
        2
    }

    open spec fn to_word(&self) -> u64 {
        if *self >= 0 {
            *self as u64
        } else {
            (*self + 0x1_0000) as u64
        }
    }

    open spec fn of_word(w: u64) -> Self {
        if w % 0x1_0000 < 0x8000 {
            (w % 0x1_0000) as i16
        } else {
            (w % 0x1_0000 - 0x1_0000) as i16
        }
    }

    fn width() -> usize {
        2
    }

    fn to_u64(&self) -> (r: u64) {
        proof {
            lemma2_to64();
        }
        if *self >= 0 {
            *self as u64
        } else {
            ((*self as i64) + 0x1_0000) as u64
        }
    }

    fn from_u64(value: u64) -> Self {
        let low = value % 0x1_0000;
        if low < 0x8000 {
            low as i16
        } else {
            ((low as i64) - 0x1_0000) as i16
        }
    }
}

impl BitCast for i8 {
    open spec fn spec_width() -> nat {
        1
    }

    open spec fn to_word(&self) -> u64 {
        if *self >= 0 {
            *self as u64
        } else {
            (*self + 0x100) as u64
        }
    }

    open spec fn of_word(w: u64) -> Self {
        if w % 0x100 < 0x80 {
            (w % 0x100) as i8
        } else {
            (w % 0x100 - 0x100) as i8
        }
    }

    fn width() -> usize {
        1
    }

    fn to_u64(&self) -> (r: u64) {
        proof {
            lemma2_to64();
        }
        if *self >= 0 {
            *self as u64
        } else {
            ((*self as i64) + 0x100) as u64
        }
    }

    fn from_u64(value: u64) -> Self {
        let low = value % 0x100;
        if low < 0x80 {
            low as i8
        } else {
            ((low as i64) - 0x100) as i8
        }
    }
}

impl BitCast for bool {
    open spec fn spec_width() -> nat {
        1
    }

    open spec fn to_word(&self) -> u64 {
        if *self {
            1
        } else {
            0
        }
    }

    open spec fn of_word(w: u64) -> Self {
        w != 0
    }

    fn width() -> usize {
        1
    }

    fn to_u64(&self) -> (r: u64) {
        proof {
            lemma2_to64();
        }
        if *self {
            1
        } else {
            0
        }
    }

    fn from_u64(value: u64) -> Self {
        value != 0
    }
}

/// The signed types that ride the wire as zigzag varints convert to and
/// from `i64` by value, not by bit pattern: widening preserves the number,
/// and narrowing is defined only inside the type's range.
pub trait SignedCast: Sized {
    /// The smallest value of the type, as an `i64`. The default stands for
    /// implementations outside the verified world, which override the
    /// executable methods only; every implementation verified here
    /// overrides it.
    open spec fn spec_min() -> i64 {
        i64::MIN
    }

    /// The largest value of the type, as an `i64`; defaulted for the same
    /// reason as `spec_min`.
    open spec fn spec_max() -> i64 {
        i64::MAX
    }

    /// The value widened to 64 bits; defaulted for the same reason as
    /// `spec_min`.
    open spec fn to_i64(&self) -> i64 {
        0
    }

    /// The value a 64-bit number denotes, meaningful inside the range;
    /// defaulted for the same reason as `spec_min`.
    open spec fn of_i64(v: i64) -> Self {
        arbitrary()
    }

    /// Widen to a 64-bit signed value. Widening lands inside the type's
    /// range, and narrowing the result yields the value back: the law every
    /// verified implementation proves.
    fn widen_i64(&self) -> (r: i64)
        ensures
            r == self.to_i64(),
            Self::spec_min() <= r <= Self::spec_max(),
            Self::of_i64(self.to_i64()) == *self,
    ;

    /// Narrow a 64-bit signed value known to lie inside the type's range.
    fn narrow_i64(v: i64) -> (r: Self)
        requires
            Self::spec_min() <= v <= Self::spec_max(),
        ensures
            r == Self::of_i64(v),
    ;
}

impl SignedCast for i64 {
    open spec fn spec_min() -> i64 {
        i64::MIN
    }

    open spec fn spec_max() -> i64 {
        i64::MAX
    }

    open spec fn to_i64(&self) -> i64 {
        *self
    }

    open spec fn of_i64(v: i64) -> Self {
        v
    }

    fn widen_i64(&self) -> i64 {
        *self
    }

    fn narrow_i64(v: i64) -> Self {
        v
    }
}

impl SignedCast for i32 {
    open spec fn spec_min() -> i64 {
        i32::MIN as i64
    }

    open spec fn spec_max() -> i64 {
        i32::MAX as i64
    }

    open spec fn to_i64(&self) -> i64 {
        *self as i64
    }

    open spec fn of_i64(v: i64) -> Self {
        v as i32
    }

    fn widen_i64(&self) -> i64 {
        *self as i64
    }

    fn narrow_i64(v: i64) -> Self {
        v as i32
    }
}

impl SignedCast for i16 {
    open spec fn spec_min() -> i64 {
        i16::MIN as i64
    }

    open spec fn spec_max() -> i64 {
        i16::MAX as i64
    }

    open spec fn to_i64(&self) -> i64 {
        *self as i64
    }

    open spec fn of_i64(v: i64) -> Self {
        v as i16
    }

    fn widen_i64(&self) -> i64 {
        *self as i64
    }

    fn narrow_i64(v: i64) -> Self {
        v as i16
    }
}

impl SignedCast for i8 {
    open spec fn spec_min() -> i64 {
        i8::MIN as i64
    }

    open spec fn spec_max() -> i64 {
        i8::MAX as i64
    }

    open spec fn to_i64(&self) -> i64 {
        *self as i64
    }

    open spec fn of_i64(v: i64) -> Self {
        v as i8
    }

    fn widen_i64(&self) -> i64 {
        *self as i64
    }

    fn narrow_i64(v: i64) -> Self {
        v as i8
    }
}

} // verus!
