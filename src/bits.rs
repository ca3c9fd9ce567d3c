//! Fixed-width unsigned bit vectors.
use vstd::arithmetic::power2::{lemma2_to64, lemma_pow2_pos, lemma_pow2_strictly_increases, pow2};
use vstd::bits::{lemma_u64_pow2_no_overflow, lemma_u64_shl_is_mul, lemma_u64_shr_is_div};
use vstd::prelude::*;

verus! {

/// The widest bit vector this kernel supports.
pub const MAX_WIDTH: u32 = 64;

/// Why a bit-vector operation was refused.
#[derive(Debug, Clone, Copy, PartialEq, Eq, Structural)]
pub enum BitsError {
    /// A width of zero, or wider than `MAX_WIDTH`.
    WidthError,
    /// The two operands of a binary operation have different widths.
    WidthMismatch,
    /// A value that does not fit the width, or a bit index past the width.
    RangeError,
}

/// An unsigned integer of a fixed number of bits.
#[derive(Debug, Clone, Copy, PartialEq, Eq, Structural)]
pub struct BitVec {
    pub width: u32,
    pub value: u64,
}

/// The number of distinct values of a `w`-bit vector.
pub open spec fn modulus(w: nat) -> nat {
    pow2(w)
}

/// Whether `w` is a width this kernel supports.
pub open spec fn valid_width(w: nat) -> bool {
    1 <= w <= MAX_WIDTH
}

/// Wrapping sum of two `w`-bit values.
pub open spec fn add_mod(a: nat, b: nat, w: nat) -> nat {
    (a + b) % modulus(w)
}

/// Wrapping difference of two `w`-bit values.
pub open spec fn sub_mod(a: nat, b: nat, w: nat) -> nat {
    ((a + modulus(w) - b) % (modulus(w) as int)) as nat
}

/// All ones in the low `w` bits, as a number.
pub open spec fn ones_spec(w: nat) -> nat {
    (modulus(w) - 1) as nat
}

pub(crate) proof fn lemma_modulus_bounds(w: nat)
    requires
        valid_width(w),
    ensures
        modulus(w) >= 2,
        modulus(w) - 1 <= u64::MAX,
        w < 64 ==> modulus(w) <= u64::MAX,
        w == 64 ==> modulus(w) == u64::MAX + 1,
{
    lemma2_to64();
    lemma_pow2_strictly_increases(0, w);
    if w < 64 {
        lemma_u64_pow2_no_overflow(w);
    }
}

/// All ones in the low `width` bits.
pub(crate) fn ones(width: u32) -> (r: u64)
    requires
        valid_width(width as nat),
    ensures
        r as nat == modulus(width as nat) - 1,
{
    proof {
        lemma_modulus_bounds(width as nat);
    }
    if width == 64 {
        u64::MAX
    } else {
        proof {
            lemma_u64_shl_is_mul(1, width as u64);
        }
        (1u64 << (width as u64)) - 1
    }
}

pub(crate) proof fn lemma_bitwise_in_range(x: u64, y: u64, w: nat)
    requires
        valid_width(w),
        x < modulus(w),
        y < modulus(w),
    ensures
        (x & y) < modulus(w),
        (x | y) < modulus(w),
        (x ^ y) < modulus(w),
{
    lemma_modulus_bounds(w);
    assert((x & y) <= x) by (bit_vector);
    if w < 64 {
        let s = w as u64;
        lemma_u64_shl_is_mul(1, s);
        assert((x | y) < (1u64 << s) && (x ^ y) < (1u64 << s)) by (bit_vector)
            requires
                s < 64,
                x < (1u64 << s),
                y < (1u64 << s),
        ;
    }
}

impl BitVec {
    /// A well-formed bit vector: a supported width and a value below `2^width`.
    pub open spec fn wf(&self) -> bool {
        valid_width(self.width as nat) && self.value < modulus(self.width as nat)
    }

    /// Tests `wf`.
    pub fn wf_check(&self) -> (r: bool)
        ensures
            r == self.wf(),
    {
        if self.width == 0 || self.width > MAX_WIDTH {
            return false;
        }
        self.value <= ones(self.width)
    }

    /// Builds a bit vector, refusing an unsupported width or a value that does not fit.
    pub fn new(width: u32, value: u64) -> (r: Result<BitVec, BitsError>)
        ensures
            !valid_width(width as nat) ==> r == Err::<BitVec, BitsError>(BitsError::WidthError),
            valid_width(width as nat) && value >= modulus(width as nat) ==> r == Err::<
                BitVec,
                BitsError,
            >(BitsError::RangeError),
            valid_width(width as nat) && value < modulus(width as nat) ==> r == Ok::<
                BitVec,
                BitsError,
            >(BitVec { width, value }),
    {
        if width == 0 || width > MAX_WIDTH {
            return Err(BitsError::WidthError);
        }
        let m = ones(width);
        if value > m {
            Err(BitsError::RangeError)
        } else {
            Ok(BitVec { width, value })
        }
    }

    /// The all-zero vector of the given width.
    pub fn zero(width: u32) -> (r: BitVec)
        requires
            valid_width(width as nat),
        ensures
            r.wf(),
            r == (BitVec { width, value: 0 }),
    {
        proof {
            lemma_modulus_bounds(width as nat);
        }
        BitVec { width, value: 0 }
    }

    /// Wrapping addition of two vectors of one width.
    pub fn add(&self, o: &BitVec) -> (r: Result<BitVec, BitsError>)
        requires
            self.wf(),
            o.wf(),
        ensures
            self.width != o.width ==> r == Err::<BitVec, BitsError>(BitsError::WidthMismatch),
            self.width == o.width ==> r == Ok::<BitVec, BitsError>(
                BitVec {
                    width: self.width,
                    value: add_mod(self.value as nat, o.value as nat, self.width as nat) as u64,
                },
            ),
            r is Ok ==> r->Ok_0.wf(),
    {
        if self.width != o.width {
            return Err(BitsError::WidthMismatch);
        }
        let m = ones(self.width);
        let room = m - self.value;
        let value = if o.value > room {
            o.value - room - 1
        } else {
            self.value + o.value
        };
        proof {
            lemma_modulus_bounds(self.width as nat);
            let md = modulus(self.width as nat) as int;
            let s = self.value as int + o.value as int;
            if o.value > room {
                vstd::arithmetic::div_mod::lemma_mod_add_multiples_vanish(s - md, md);
                vstd::arithmetic::div_mod::lemma_small_mod((s - md) as nat, md as nat);
            } else {
                vstd::arithmetic::div_mod::lemma_small_mod(s as nat, md as nat);
            }
        }
        Ok(BitVec { width: self.width, value })
    }

    /// Wrapping subtraction of two vectors of one width.
    pub fn sub(&self, o: &BitVec) -> (r: Result<BitVec, BitsError>)
        requires
            self.wf(),
            o.wf(),
        ensures
            self.width != o.width ==> r == Err::<BitVec, BitsError>(BitsError::WidthMismatch),
            self.width == o.width ==> r == Ok::<BitVec, BitsError>(
                BitVec {
                    width: self.width,
                    value: sub_mod(self.value as nat, o.value as nat, self.width as nat) as u64,
                },
            ),
            r is Ok ==> r->Ok_0.wf(),
    {
        if self.width != o.width {
            return Err(BitsError::WidthMismatch);
        }
        let m = ones(self.width);
        let value = if self.value >= o.value {
            self.value - o.value
        } else {
            m - (o.value - self.value) + 1
        };
        proof {
            lemma_modulus_bounds(self.width as nat);
            let md = modulus(self.width as nat) as int;
            let s = self.value as int + md - o.value as int;
            if self.value >= o.value {
                vstd::arithmetic::div_mod::lemma_mod_add_multiples_vanish(s - md, md);
                vstd::arithmetic::div_mod::lemma_small_mod((s - md) as nat, md as nat);
            } else {
                vstd::arithmetic::div_mod::lemma_small_mod(s as nat, md as nat);
            }
        }
        Ok(BitVec { width: self.width, value })
    }

    /// Bitwise and of two vectors of one width.
    pub fn and(&self, o: &BitVec) -> (r: Result<BitVec, BitsError>)
        requires
            self.wf(),
            o.wf(),
        ensures
            self.width != o.width ==> r == Err::<BitVec, BitsError>(BitsError::WidthMismatch),
            self.width == o.width ==> r == Ok::<BitVec, BitsError>(
                BitVec { width: self.width, value: self.value & o.value },
            ),
            r is Ok ==> r->Ok_0.wf(),
    {
        if self.width != o.width {
            return Err(BitsError::WidthMismatch);
        }
        proof {
            lemma_bitwise_in_range(self.value, o.value, self.width as nat);
        }
        Ok(BitVec { width: self.width, value: self.value & o.value })
    }

    /// Bitwise or of two vectors of one width.
    pub fn or(&self, o: &BitVec) -> (r: Result<BitVec, BitsError>)
        requires
            self.wf(),
            o.wf(),
        ensures
            self.width != o.width ==> r == Err::<BitVec, BitsError>(BitsError::WidthMismatch),
            self.width == o.width ==> r == Ok::<BitVec, BitsError>(
                BitVec { width: self.width, value: self.value | o.value },
            ),
            r is Ok ==> r->Ok_0.wf(),
    {
        if self.width != o.width {
            return Err(BitsError::WidthMismatch);
        }
        proof {
            lemma_bitwise_in_range(self.value, o.value, self.width as nat);
        }
        Ok(BitVec { width: self.width, value: self.value | o.value })
    }

    /// Bitwise exclusive or of two vectors of one width.
    pub fn xor(&self, o: &BitVec) -> (r: Result<BitVec, BitsError>)
        requires
            self.wf(),
            o.wf(),
        ensures
            self.width != o.width ==> r == Err::<BitVec, BitsError>(BitsError::WidthMismatch),
            self.width == o.width ==> r == Ok::<BitVec, BitsError>(
                BitVec { width: self.width, value: self.value ^ o.value },
            ),
            r is Ok ==> r->Ok_0.wf(),
    {
        if self.width != o.width {
            return Err(BitsError::WidthMismatch);
        }
        proof {
            lemma_bitwise_in_range(self.value, o.value, self.width as nat);
        }
        Ok(BitVec { width: self.width, value: self.value ^ o.value })
    }

    /// Bitwise complement within the vector's width.
    pub fn not(&self) -> (r: BitVec)
        requires
            self.wf(),
        ensures
            r.wf(),
            r.width == self.width,
            r.value == modulus(self.width as nat) - 1 - self.value,
    {
        let m = ones(self.width);
        BitVec { width: self.width, value: m - self.value }
    }

    /// Logical shift right; bits shifted past the low end are lost.
    pub fn shr(&self, amount: u32) -> (r: BitVec)
        requires
            self.wf(),
        ensures
            r.wf(),
            r.width == self.width,
            r.value == self.value as nat / pow2(amount as nat),
    {
        proof {
            lemma_modulus_bounds(self.width as nat);
        }
        if amount >= self.width {
            proof {
                if amount > self.width {
                    lemma_pow2_strictly_increases(self.width as nat, amount as nat);
                }
                vstd::arithmetic::div_mod::lemma_basic_div(self.value as int, pow2(amount as nat) as int);
            }
            return BitVec { width: self.width, value: 0 };
        }
        proof {
            lemma_u64_shr_is_div(self.value, amount as u64);
            lemma_pow2_pos(amount as nat);
            vstd::arithmetic::div_mod::lemma_div_is_ordered_by_denominator(self.value as int, 1, pow2(amount as nat) as int);
        }
        BitVec { width: self.width, value: self.value >> (amount as u64) }
    }

    /// Logical shift left; bits shifted past the width are lost.
    pub fn shl(&self, amount: u32) -> (r: BitVec)
        requires
            self.wf(),
        ensures
            r.wf(),
            r.width == self.width,
            amount >= self.width ==> r.value == 0,
            amount < self.width ==> r.value == ((self.value << (amount as u64)) & (ones_spec(self.width as nat) as u64)),
    {
        proof {
            lemma_modulus_bounds(self.width as nat);
        }
        if amount >= self.width {
            return BitVec { width: self.width, value: 0 };
        }
        let m = ones(self.width);
        let v = (self.value << (amount as u64)) & m;
        proof {
            let x = self.value << (amount as u64);
            assert((x & m) <= m) by (bit_vector);
        }
        BitVec { width: self.width, value: v }
    }

    /// Equality of two vectors of one width.
    pub fn eq(&self, o: &BitVec) -> (r: Result<bool, BitsError>)
        requires
            self.wf(),
            o.wf(),
        ensures
            self.width != o.width ==> r == Err::<bool, BitsError>(BitsError::WidthMismatch),
            self.width == o.width ==> r == Ok::<bool, BitsError>(self.value == o.value),
    {
        if self.width != o.width {
            return Err(BitsError::WidthMismatch);
        }
        Ok(self.value == o.value)
    }

    /// Unsigned less-than of two vectors of one width.
    pub fn lt(&self, o: &BitVec) -> (r: Result<bool, BitsError>)
        requires
            self.wf(),
            o.wf(),
        ensures
            self.width != o.width ==> r == Err::<bool, BitsError>(BitsError::WidthMismatch),
            self.width == o.width ==> r == Ok::<bool, BitsError>(self.value < o.value),
    {
        if self.width != o.width {
            return Err(BitsError::WidthMismatch);
        }
        Ok(self.value < o.value)
    }

    /// Unsigned less-or-equal of two vectors of one width.
    pub fn le(&self, o: &BitVec) -> (r: Result<bool, BitsError>)
        requires
            self.wf(),
            o.wf(),
        ensures
            self.width != o.width ==> r == Err::<bool, BitsError>(BitsError::WidthMismatch),
            self.width == o.width ==> r == Ok::<bool, BitsError>(self.value <= o.value),
    {
        if self.width != o.width {
            return Err(BitsError::WidthMismatch);
        }
        Ok(self.value <= o.value)
    }

    /// The bits `lo` up to but not including `hi`, as a vector of width `hi - lo`.
    pub fn slice(&self, lo: u32, hi: u32) -> (r: Result<BitVec, BitsError>)
        requires
            self.wf(),
        ensures
            !(lo < hi && hi <= self.width) ==> r == Err::<BitVec, BitsError>(BitsError::RangeError),
            lo < hi && hi <= self.width ==> r == Ok::<BitVec, BitsError>(
                BitVec {
                    width: (hi - lo) as u32,
                    value: ((self.value as nat / pow2(lo as nat)) % modulus((hi - lo) as nat)) as u64,
                },
            ),
            r is Ok ==> r->Ok_0.wf(),
    {
        if !(lo < hi && hi <= self.width) {
            return Err(BitsError::RangeError);
        }
        let w = hi - lo;
        let s = self.shr(lo);
        let m = ones(w);
        let x = s.value;
        let v = x & m;
        proof {
            lemma_modulus_bounds(w as nat);
            lemma_pow2_pos(w as nat);
            if w < 64 {
                vstd::bits::lemma_u64_low_bits_mask_is_mod(x, w as nat);
            } else {
                assert(x & 0xffff_ffff_ffff_ffffu64 == x) by (bit_vector);
                vstd::arithmetic::div_mod::lemma_small_mod(x as nat, modulus(w as nat));
            }
            vstd::arithmetic::div_mod::lemma_mod_bound(x as int, modulus(w as nat) as int);
        }
        Ok(BitVec { width: w, value: v })
    }

    /// The bit at `index`, counting from the least significant bit.
    pub fn bit(&self, index: u32) -> (r: Result<bool, BitsError>)
        requires
            self.wf(),
        ensures
            index >= self.width ==> r == Err::<bool, BitsError>(BitsError::RangeError),
            index < self.width ==> r == Ok::<bool, BitsError>(
                (self.value as nat / pow2(index as nat)) % 2 == 1,
            ),
    {
        if index >= self.width {
            return Err(BitsError::RangeError);
        }
        let s = self.shr(index);
        Ok(s.value % 2 == 1)
    }
}

} // verus!

verus! {

/// Addition of two `w`-bit vectors is taken modulo `2^w`: the sum stays below
/// `2^w`, equals the plain sum when that fits, and otherwise the plain sum less `2^w`.
pub proof fn lemma_add_wraps(a: BitVec, b: BitVec)
    requires
        a.wf(),
        b.wf(),
        a.width == b.width,
    ensures
        add_mod(a.value as nat, b.value as nat, a.width as nat) < modulus(a.width as nat),
        a.value + b.value < modulus(a.width as nat) ==> add_mod(a.value as nat, b.value as nat, a.width as nat) == a.value + b.value,
        a.value + b.value >= modulus(a.width as nat) ==> add_mod(a.value as nat, b.value as nat, a.width as nat) == a.value + b.value - modulus(a.width as nat),
{
    let md = modulus(a.width as nat) as int;
    let s = a.value as int + b.value as int;
    lemma_modulus_bounds(a.width as nat);
    if s >= md {
        vstd::arithmetic::div_mod::lemma_mod_add_multiples_vanish(s - md, md);
        vstd::arithmetic::div_mod::lemma_small_mod((s - md) as nat, md as nat);
    } else {
        vstd::arithmetic::div_mod::lemma_small_mod(s as nat, md as nat);
    }
}

} // verus!
