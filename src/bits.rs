//! Machine words used as storage for a bitmap.
use vstd::prelude::*;

verus! {

/// Marker for the plain unsigned words a bitmap can be stored in.
pub trait BitsRequire: Sized + Copy {}

/// A fixed-width word viewed as a sequence of bits, least significant first.
pub trait Bits: BitsRequire {
    /// Number of bits in one word.
    spec fn width() -> nat;

    /// Whether bit `i` of the word is set.
    spec fn bit(self, i: int) -> bool;

    fn bits() -> (r: usize)
        ensures
            r as nat == Self::width(),
            8 <= r <= 64,
    ;

    fn zero() -> (r: Self)
        ensures
            forall|i: int| 0 <= i < Self::width() ==> !#[trigger] r.bit(i),
    ;

    fn max() -> (r: Self)
        ensures
            forall|i: int| 0 <= i < Self::width() ==> #[trigger] r.bit(i),
    ;

    /// A word whose lowest `n` bits are set and whose other bits are clear.
    fn low_ones(n: usize) -> (r: Self)
        requires
            n <= Self::width(),
        ensures
            forall|i: int| 0 <= i < Self::width() ==> (#[trigger] r.bit(i) <==> i < n),
    ;

    /// Index of the lowest set bit, or the width when no bit is set.
    fn trailing_zeros(self) -> (r: u32)
        ensures
            r <= Self::width(),
            r < Self::width() ==> self.bit(r as int),
            forall|j: int| 0 <= j < r ==> !#[trigger] self.bit(j),
    ;

    /// Index of the lowest clear bit, or the width when every bit is set.
    fn trailing_ones(self) -> (r: u32)
        ensures
            r <= Self::width(),
            r < Self::width() ==> !self.bit(r as int),
            forall|j: int| 0 <= j < r ==> #[trigger] self.bit(j),
    ;

    fn set(self, bit: usize) -> (r: Self)
        requires
            bit < Self::width(),
        ensures
            forall|i: int| 0 <= i < Self::width() ==> #[trigger] r.bit(i) == (i == bit || self.bit(i)),
    ;

    fn clear(self, bit: usize) -> (r: Self)
        requires
            bit < Self::width(),
        ensures
            forall|i: int| 0 <= i < Self::width() ==> #[trigger] r.bit(i) == (i != bit && self.bit(i)),
    ;

    fn flip(self, bit: usize) -> (r: Self)
        requires
            bit < Self::width(),
        ensures
            forall|i: int|
                0 <= i < Self::width() ==> #[trigger] r.bit(i) == (if i == bit {
                    !self.bit(i)
                } else {
                    self.bit(i)
                }),
    ;

    fn get(self, bit: usize) -> (r: bool)
        requires
            bit < Self::width(),
        ensures
            r == self.bit(bit as int),
    ;
}

impl BitsRequire for u64 {}

impl Bits for u64 {
    open spec fn width() -> nat {
        64
    }

    open spec fn bit(self, i: int) -> bool {
        0 <= i < 64 && (self >> (i as u64)) & 1u64 == 1u64
    }

    fn bits() -> (r: usize) {
        64
    }

    fn zero() -> (r: u64) {
        assert(forall|j: u64| j < 64 ==> (0u64 >> j) & 1u64 != 1u64) by (bit_vector);
        0
    }

    fn max() -> (r: u64) {
        assert(forall|j: u64| j < 64 ==> (0xffff_ffff_ffff_ffffu64 >> j) & 1u64 == 1u64)
            by (bit_vector);
        0xffff_ffff_ffff_ffffu64
    }

    fn low_ones(n: usize) -> (r: u64) {
        if n >= 64 {
            <u64 as Bits>::max()
        } else {
            let k = n as u64;
            assert((1u64 << k) >= 1u64 && forall|j: u64|
                j < 64 ==> (#[trigger] ((((1u64 << k) - 1u64) as u64 >> j) & 1u64) == 1u64 <==> j < k))
                by (bit_vector)
                requires
                    k < 64,
            ;
            ((1u64 << k) - 1u64) as u64
        }
    }

    fn trailing_zeros(self) -> (r: u32) {
        u64::trailing_zeros(self)
    }

    fn trailing_ones(self) -> (r: u32) {
        u64::trailing_ones(self)
    }

    fn set(self, bit: usize) -> (r: u64) {
        let b = bit as u64;
        assert(forall|j: u64|
            j < 64 ==> (#[trigger] (((self | (1u64 << b)) >> j) & 1u64) == 1u64 <==> (j == b || (self >> j)
                & 1u64 == 1u64))) by (bit_vector)
            requires
                b < 64,
        ;
        self | (1u64 << b)
    }

    fn clear(self, bit: usize) -> (r: u64) {
        let b = bit as u64;
        assert(forall|j: u64|
            j < 64 ==> (#[trigger] (((self & !(1u64 << b)) >> j) & 1u64) == 1u64 <==> (j != b && (self >> j)
                & 1u64 == 1u64))) by (bit_vector)
            requires
                b < 64,
        ;
        self & !(1u64 << b)
    }

    fn flip(self, bit: usize) -> (r: u64) {
        let b = bit as u64;
        assert(forall|j: u64|
            j < 64 ==> (#[trigger] (((self ^ (1u64 << b)) >> j) & 1u64) == 1u64 <==> (if j == b {
                (self >> j) & 1u64 != 1u64
            } else {
                (self >> j) & 1u64 == 1u64
            }))) by (bit_vector)
            requires
                b < 64,
        ;
        self ^ (1u64 << b)
    }

    fn get(self, bit: usize) -> (r: bool) {
        let b = bit as u64;
        assert(((self & (1u64 << b)) != 0u64) == ((self >> b) & 1u64 == 1u64)) by (bit_vector)
            requires
                b < 64,
        ;
        (self & (1u64 << b)) != 0
    }
}

impl BitsRequire for u32 {}

impl Bits for u32 {
    open spec fn width() -> nat {
        32
    }

    open spec fn bit(self, i: int) -> bool {
        0 <= i < 32 && (self >> (i as u32)) & 1u32 == 1u32
    }

    fn bits() -> (r: usize) {
        32
    }

    fn zero() -> (r: u32) {
        assert(forall|j: u32| j < 32 ==> (0u32 >> j) & 1u32 != 1u32) by (bit_vector);
        0
    }

    fn max() -> (r: u32) {
        assert(forall|j: u32| j < 32 ==> (0xffff_ffffu32 >> j) & 1u32 == 1u32)
            by (bit_vector);
        0xffff_ffffu32
    }

    fn low_ones(n: usize) -> (r: u32) {
        if n >= 32 {
            <u32 as Bits>::max()
        } else {
            let k = n as u32;
            assert((1u32 << k) >= 1u32 && forall|j: u32|
                j < 32 ==> (#[trigger] ((((1u32 << k) - 1u32) as u32 >> j) & 1u32) == 1u32 <==> j < k))
                by (bit_vector)
                requires
                    k < 32,
            ;
            ((1u32 << k) - 1u32) as u32
        }
    }

    fn trailing_zeros(self) -> (r: u32) {
        u32::trailing_zeros(self)
    }

    fn trailing_ones(self) -> (r: u32) {
        u32::trailing_ones(self)
    }

    fn set(self, bit: usize) -> (r: u32) {
        let b = bit as u32;
        assert(forall|j: u32|
            j < 32 ==> (#[trigger] (((self | (1u32 << b)) >> j) & 1u32) == 1u32 <==> (j == b || (self >> j)
                & 1u32 == 1u32))) by (bit_vector)
            requires
                b < 32,
        ;
        self | (1u32 << b)
    }

    fn clear(self, bit: usize) -> (r: u32) {
        let b = bit as u32;
        assert(forall|j: u32|
            j < 32 ==> (#[trigger] (((self & !(1u32 << b)) >> j) & 1u32) == 1u32 <==> (j != b && (self >> j)
                & 1u32 == 1u32))) by (bit_vector)
            requires
                b < 32,
        ;
        self & !(1u32 << b)
    }

    fn flip(self, bit: usize) -> (r: u32) {
        let b = bit as u32;
        assert(forall|j: u32|
            j < 32 ==> (#[trigger] (((self ^ (1u32 << b)) >> j) & 1u32) == 1u32 <==> (if j == b {
                (self >> j) & 1u32 != 1u32
            } else {
                (self >> j) & 1u32 == 1u32
            }))) by (bit_vector)
            requires
                b < 32,
        ;
        self ^ (1u32 << b)
    }

    fn get(self, bit: usize) -> (r: bool) {
        let b = bit as u32;
        assert(((self & (1u32 << b)) != 0u32) == ((self >> b) & 1u32 == 1u32)) by (bit_vector)
            requires
                b < 32,
        ;
        (self & (1u32 << b)) != 0
    }
}

impl BitsRequire for u16 {}

impl Bits for u16 {
    open spec fn width() -> nat {
        16
    }

    open spec fn bit(self, i: int) -> bool {
        0 <= i < 16 && (self >> (i as u16)) & 1u16 == 1u16
    }

    fn bits() -> (r: usize) {
        16
    }

    fn zero() -> (r: u16) {
        assert(forall|j: u16| j < 16 ==> (0u16 >> j) & 1u16 != 1u16) by (bit_vector);
        0
    }

    fn max() -> (r: u16) {
        assert(forall|j: u16| j < 16 ==> (0xffffu16 >> j) & 1u16 == 1u16)
            by (bit_vector);
        0xffffu16
    }

    fn low_ones(n: usize) -> (r: u16) {
        if n >= 16 {
            <u16 as Bits>::max()
        } else {
            let k = n as u16;
            assert((1u16 << k) >= 1u16 && forall|j: u16|
                j < 16 ==> (#[trigger] ((((1u16 << k) - 1u16) as u16 >> j) & 1u16) == 1u16 <==> j < k))
                by (bit_vector)
                requires
                    k < 16,
            ;
            ((1u16 << k) - 1u16) as u16
        }
    }

    fn trailing_zeros(self) -> (r: u32) {
        u16::trailing_zeros(self)
    }

    fn trailing_ones(self) -> (r: u32) {
        u16::trailing_ones(self)
    }

    fn set(self, bit: usize) -> (r: u16) {
        let b = bit as u16;
        assert(forall|j: u16|
            j < 16 ==> (#[trigger] (((self | (1u16 << b)) >> j) & 1u16) == 1u16 <==> (j == b || (self >> j)
                & 1u16 == 1u16))) by (bit_vector)
            requires
                b < 16,
        ;
        self | (1u16 << b)
    }

    fn clear(self, bit: usize) -> (r: u16) {
        let b = bit as u16;
        assert(forall|j: u16|
            j < 16 ==> (#[trigger] (((self & !(1u16 << b)) >> j) & 1u16) == 1u16 <==> (j != b && (self >> j)
                & 1u16 == 1u16))) by (bit_vector)
            requires
                b < 16,
        ;
        self & !(1u16 << b)
    }

    fn flip(self, bit: usize) -> (r: u16) {
        let b = bit as u16;
        assert(forall|j: u16|
            j < 16 ==> (#[trigger] (((self ^ (1u16 << b)) >> j) & 1u16) == 1u16 <==> (if j == b {
                (self >> j) & 1u16 != 1u16
            } else {
                (self >> j) & 1u16 == 1u16
            }))) by (bit_vector)
            requires
                b < 16,
        ;
        self ^ (1u16 << b)
    }

    fn get(self, bit: usize) -> (r: bool) {
        let b = bit as u16;
        assert(((self & (1u16 << b)) != 0u16) == ((self >> b) & 1u16 == 1u16)) by (bit_vector)
            requires
                b < 16,
        ;
        (self & (1u16 << b)) != 0
    }
}

impl BitsRequire for u8 {}

impl Bits for u8 {
    open spec fn width() -> nat {
        8
    }

    open spec fn bit(self, i: int) -> bool {
        0 <= i < 8 && (self >> (i as u8)) & 1u8 == 1u8
    }

    fn bits() -> (r: usize) {
        8
    }

    fn zero() -> (r: u8) {
        assert(forall|j: u8| j < 8 ==> (0u8 >> j) & 1u8 != 1u8) by (bit_vector);
        0
    }

    fn max() -> (r: u8) {
        assert(forall|j: u8| j < 8 ==> (0xffu8 >> j) & 1u8 == 1u8)
            by (bit_vector);
        0xffu8
    }

    fn low_ones(n: usize) -> (r: u8) {
        if n >= 8 {
            <u8 as Bits>::max()
        } else {
            let k = n as u8;
            assert((1u8 << k) >= 1u8 && forall|j: u8|
                j < 8 ==> (#[trigger] ((((1u8 << k) - 1u8) as u8 >> j) & 1u8) == 1u8 <==> j < k))
                by (bit_vector)
                requires
                    k < 8,
            ;
            ((1u8 << k) - 1u8) as u8
        }
    }

    fn trailing_zeros(self) -> (r: u32) {
        u8::trailing_zeros(self)
    }

    fn trailing_ones(self) -> (r: u32) {
        u8::trailing_ones(self)
    }

    fn set(self, bit: usize) -> (r: u8) {
        let b = bit as u8;
        assert(forall|j: u8|
            j < 8 ==> (#[trigger] (((self | (1u8 << b)) >> j) & 1u8) == 1u8 <==> (j == b || (self >> j)
                & 1u8 == 1u8))) by (bit_vector)
            requires
                b < 8,
        ;
        self | (1u8 << b)
    }

    fn clear(self, bit: usize) -> (r: u8) {
        let b = bit as u8;
        assert(forall|j: u8|
            j < 8 ==> (#[trigger] (((self & !(1u8 << b)) >> j) & 1u8) == 1u8 <==> (j != b && (self >> j)
                & 1u8 == 1u8))) by (bit_vector)
            requires
                b < 8,
        ;
        self & !(1u8 << b)
    }

    fn flip(self, bit: usize) -> (r: u8) {
        let b = bit as u8;
        assert(forall|j: u8|
            j < 8 ==> (#[trigger] (((self ^ (1u8 << b)) >> j) & 1u8) == 1u8 <==> (if j == b {
                (self >> j) & 1u8 != 1u8
            } else {
                (self >> j) & 1u8 == 1u8
            }))) by (bit_vector)
            requires
                b < 8,
        ;
        self ^ (1u8 << b)
    }

    fn get(self, bit: usize) -> (r: bool) {
        let b = bit as u8;
        assert(((self & (1u8 << b)) != 0u8) == ((self >> b) & 1u8 == 1u8)) by (bit_vector)
            requires
                b < 8,
        ;
        (self & (1u8 << b)) != 0
    }
}

} // verus!
