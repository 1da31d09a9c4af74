//! Fixed-width unsigned integers seen as natural numbers, with the operations
//! that the binary gcd needs: comparison, subtraction, shifts and the count of
//! trailing zero bits.
use vstd::prelude::*;
use vstd::arithmetic::div_mod::{lemma_fundamental_div_mod, lemma_mod_multiples_basic};
use vstd::arithmetic::power2::{pow2, lemma2_to64, lemma_pow2_pos};
use vstd::bits::{
    lemma_u16_shl_is_mul, lemma_u16_shr_is_div, lemma_u32_shl_is_mul, lemma_u32_shr_is_div,
    lemma_u64_shl_is_mul, lemma_u64_shr_is_div, lemma_u8_shl_is_mul, lemma_u8_shr_is_div,
};
use vstd::std_specs::bits::{
    axiom_u16_trailing_zeros, axiom_u32_trailing_zeros, axiom_u64_trailing_zeros,
    axiom_u8_trailing_zeros, u16_trailing_zeros, u32_trailing_zeros, u64_trailing_zeros,
    u8_trailing_zeros,
};

verus! {

/// An unsigned integer type of a fixed bit width.
pub trait UnsignedInt: Copy + Sized {
    /// The value as a natural number.
    spec fn to_nat(self) -> nat;

    /// The bit width of the type.
    spec fn width() -> nat;

    /// Every value fits in the width.
    proof fn lemma_fits(self)
        ensures
            self.to_nat() < pow2(Self::width()),
    ;

    /// Two values with the same number are the same value.
    proof fn lemma_same_number(self, other: Self)
        ensures
            self.to_nat() == other.to_nat() ==> self == other,
    ;

    fn is_zero(self) -> (r: bool)
        ensures
            r == (self.to_nat() == 0),
    ;

    fn exceeds(self, other: Self) -> (r: bool)
        ensures
            r == (self.to_nat() > other.to_nat()),
    ;

    fn minus(self, other: Self) -> (r: Self)
        requires
            other.to_nat() <= self.to_nat(),
        ensures
            r.to_nat() == self.to_nat() - other.to_nat(),
    ;

    /// The number of trailing zero bits: for a non-zero value, the exponent of
    /// the largest power of two that divides it.
    fn trailing_zero_bits(self) -> (r: u32)
        ensures
            self.to_nat() > 0 ==> {
                &&& r < Self::width()
                &&& self.to_nat() % pow2(r as nat) == 0
                &&& (self.to_nat() / pow2(r as nat)) % 2 == 1
            },
    ;

    fn shift_right(self, k: u32) -> (r: Self)
        requires
            k < Self::width(),
        ensures
            r.to_nat() == self.to_nat() / pow2(k as nat),
    ;

    fn shift_left(self, k: u32) -> (r: Self)
        requires
            k < Self::width(),
            self.to_nat() * pow2(k as nat) < pow2(Self::width()),
        ensures
            r.to_nat() == self.to_nat() * pow2(k as nat),
    ;
}

/// From `x == y * 2^t` with `y` odd, the facts that `trailing_zero_bits` states.
proof fn lemma_odd_part(x: nat, y: nat, t: nat)
    requires
        y % 2 == 1,
        x == y * pow2(t),
    ensures
        x % pow2(t) == 0,
        x / pow2(t) == y,
{
    lemma_pow2_pos(t);
    lemma_mod_multiples_basic(y as int, pow2(t) as int);
    vstd::arithmetic::div_mod::lemma_div_multiples_vanish(y as int, pow2(t) as int);
    assert(pow2(t) * y == y * pow2(t)) by (nonlinear_arith);
}

proof fn lemma_u8_trailing(x: u8)
    requires
        x != 0,
    ensures
        u8_trailing_zeros(x) < 8,
        x as nat % pow2(u8_trailing_zeros(x) as nat) == 0,
        (x as nat / pow2(u8_trailing_zeros(x) as nat)) % 2 == 1,
{
    axiom_u8_trailing_zeros(x);
    let t = u8_trailing_zeros(x) as u8;
    let y = x >> t;
    assert((x << vstd::prelude::sub(8u8, t)) == 0 && t < 8 ==> (y << t) == x) by (bit_vector)
        requires
            y == x >> t,
    ;
    assert((y & 1u8) == 1u8 ==> y % 2 == 1) by (bit_vector);
    lemma_u8_shr_is_div(x, t);
    lemma_pow2_pos(t as nat);
    lemma_fundamental_div_mod(x as int, pow2(t as nat) as int);
    assert(y * pow2(t as nat) <= x) by (nonlinear_arith)
        requires
            y == x as nat / pow2(t as nat),
            x == pow2(t as nat) * (x as nat / pow2(t as nat)) + x as nat % pow2(t as nat),
            x as nat % pow2(t as nat) >= 0,
    ;
    lemma_u8_shl_is_mul(y, t);
    lemma_odd_part(x as nat, y as nat, t as nat);
}

impl UnsignedInt for u8 {
    open spec fn to_nat(self) -> nat {
        self as nat
    }

    open spec fn width() -> nat {
        8
    }

    proof fn lemma_fits(self) {
        lemma2_to64();
    }

    proof fn lemma_same_number(self, other: Self) {
    }

    fn is_zero(self) -> (r: bool) {
        self == 0
    }

    fn exceeds(self, other: Self) -> (r: bool) {
        self > other
    }

    fn minus(self, other: Self) -> (r: Self) {
        self - other
    }

    fn trailing_zero_bits(self) -> (r: u32) {
        if self != 0 {
            proof {
                lemma_u8_trailing(self);
            }
        }
        self.trailing_zeros()
    }

    fn shift_right(self, k: u32) -> (r: Self) {
        proof {
            lemma_u8_shr_is_div(self, k as u8);
        }
        self >> (k as u8)
    }

    fn shift_left(self, k: u32) -> (r: Self) {
        proof {
            lemma2_to64();
            lemma_u8_shl_is_mul(self, k as u8);
        }
        self << (k as u8)
    }
}

proof fn lemma_u16_trailing(x: u16)
    requires
        x != 0,
    ensures
        u16_trailing_zeros(x) < 16,
        x as nat % pow2(u16_trailing_zeros(x) as nat) == 0,
        (x as nat / pow2(u16_trailing_zeros(x) as nat)) % 2 == 1,
{
    axiom_u16_trailing_zeros(x);
    let t = u16_trailing_zeros(x) as u16;
    let y = x >> t;
    assert((x << vstd::prelude::sub(16u16, t)) == 0 && t < 16 ==> (y << t) == x) by (bit_vector)
        requires
            y == x >> t,
    ;
    assert((y & 1u16) == 1u16 ==> y % 2 == 1) by (bit_vector);
    lemma_u16_shr_is_div(x, t);
    lemma_pow2_pos(t as nat);
    lemma_fundamental_div_mod(x as int, pow2(t as nat) as int);
    assert(y * pow2(t as nat) <= x) by (nonlinear_arith)
        requires
            y == x as nat / pow2(t as nat),
            x == pow2(t as nat) * (x as nat / pow2(t as nat)) + x as nat % pow2(t as nat),
            x as nat % pow2(t as nat) >= 0,
    ;
    lemma_u16_shl_is_mul(y, t);
    lemma_odd_part(x as nat, y as nat, t as nat);
}

impl UnsignedInt for u16 {
    open spec fn to_nat(self) -> nat {
        self as nat
    }

    open spec fn width() -> nat {
        16
    }

    proof fn lemma_fits(self) {
        lemma2_to64();
    }

    proof fn lemma_same_number(self, other: Self) {
    }

    fn is_zero(self) -> (r: bool) {
        self == 0
    }

    fn exceeds(self, other: Self) -> (r: bool) {
        self > other
    }

    fn minus(self, other: Self) -> (r: Self) {
        self - other
    }

    fn trailing_zero_bits(self) -> (r: u32) {
        if self != 0 {
            proof {
                lemma_u16_trailing(self);
            }
        }
        self.trailing_zeros()
    }

    fn shift_right(self, k: u32) -> (r: Self) {
        proof {
            lemma_u16_shr_is_div(self, k as u16);
        }
        self >> (k as u16)
    }

    fn shift_left(self, k: u32) -> (r: Self) {
        proof {
            lemma2_to64();
            lemma_u16_shl_is_mul(self, k as u16);
        }
        self << (k as u16)
    }
}

proof fn lemma_u32_trailing(x: u32)
    requires
        x != 0,
    ensures
        u32_trailing_zeros(x) < 32,
        x as nat % pow2(u32_trailing_zeros(x) as nat) == 0,
        (x as nat / pow2(u32_trailing_zeros(x) as nat)) % 2 == 1,
{
    axiom_u32_trailing_zeros(x);
    let t = u32_trailing_zeros(x) as u32;
    let y = x >> t;
    assert((x << vstd::prelude::sub(32u32, t)) == 0 && t < 32 ==> (y << t) == x) by (bit_vector)
        requires
            y == x >> t,
    ;
    assert((y & 1u32) == 1u32 ==> y % 2 == 1) by (bit_vector);
    lemma_u32_shr_is_div(x, t);
    lemma_pow2_pos(t as nat);
    lemma_fundamental_div_mod(x as int, pow2(t as nat) as int);
    assert(y * pow2(t as nat) <= x) by (nonlinear_arith)
        requires
            y == x as nat / pow2(t as nat),
            x == pow2(t as nat) * (x as nat / pow2(t as nat)) + x as nat % pow2(t as nat),
            x as nat % pow2(t as nat) >= 0,
    ;
    lemma_u32_shl_is_mul(y, t);
    lemma_odd_part(x as nat, y as nat, t as nat);
}

impl UnsignedInt for u32 {
    open spec fn to_nat(self) -> nat {
        self as nat
    }

    open spec fn width() -> nat {
        32
    }

    proof fn lemma_fits(self) {
        lemma2_to64();
    }

    proof fn lemma_same_number(self, other: Self) {
    }

    fn is_zero(self) -> (r: bool) {
        self == 0
    }

    fn exceeds(self, other: Self) -> (r: bool) {
        self > other
    }

    fn minus(self, other: Self) -> (r: Self) {
        self - other
    }

    fn trailing_zero_bits(self) -> (r: u32) {
        if self != 0 {
            proof {
                lemma_u32_trailing(self);
            }
        }
        self.trailing_zeros()
    }

    fn shift_right(self, k: u32) -> (r: Self) {
        proof {
            lemma_u32_shr_is_div(self, k as u32);
        }
        self >> (k as u32)
    }

    fn shift_left(self, k: u32) -> (r: Self) {
        proof {
            lemma2_to64();
            lemma_u32_shl_is_mul(self, k as u32);
        }
        self << (k as u32)
    }
}

proof fn lemma_u64_trailing(x: u64)
    requires
        x != 0,
    ensures
        u64_trailing_zeros(x) < 64,
        x as nat % pow2(u64_trailing_zeros(x) as nat) == 0,
        (x as nat / pow2(u64_trailing_zeros(x) as nat)) % 2 == 1,
{
    axiom_u64_trailing_zeros(x);
    let t = u64_trailing_zeros(x) as u64;
    let y = x >> t;
    assert((x << vstd::prelude::sub(64u64, t)) == 0 && t < 64 ==> (y << t) == x) by (bit_vector)
        requires
            y == x >> t,
    ;
    assert((y & 1u64) == 1u64 ==> y % 2 == 1) by (bit_vector);
    lemma_u64_shr_is_div(x, t);
    lemma_pow2_pos(t as nat);
    lemma_fundamental_div_mod(x as int, pow2(t as nat) as int);
    assert(y * pow2(t as nat) <= x) by (nonlinear_arith)
        requires
            y == x as nat / pow2(t as nat),
            x == pow2(t as nat) * (x as nat / pow2(t as nat)) + x as nat % pow2(t as nat),
            x as nat % pow2(t as nat) >= 0,
    ;
    lemma_u64_shl_is_mul(y, t);
    lemma_odd_part(x as nat, y as nat, t as nat);
}

impl UnsignedInt for u64 {
    open spec fn to_nat(self) -> nat {
        self as nat
    }

    open spec fn width() -> nat {
        64
    }

    proof fn lemma_fits(self) {
        lemma2_to64();
    }

    proof fn lemma_same_number(self, other: Self) {
    }

    fn is_zero(self) -> (r: bool) {
        self == 0
    }

    fn exceeds(self, other: Self) -> (r: bool) {
        self > other
    }

    fn minus(self, other: Self) -> (r: Self) {
        self - other
    }

    fn trailing_zero_bits(self) -> (r: u32) {
        if self != 0 {
            proof {
                lemma_u64_trailing(self);
            }
        }
        self.trailing_zeros()
    }

    fn shift_right(self, k: u32) -> (r: Self) {
        proof {
            lemma_u64_shr_is_div(self, k as u64);
        }
        self >> (k as u64)
    }

    fn shift_left(self, k: u32) -> (r: Self) {
        proof {
            lemma2_to64();
            lemma_u64_shl_is_mul(self, k as u64);
        }
        self << (k as u64)
    }
}

} // verus!
